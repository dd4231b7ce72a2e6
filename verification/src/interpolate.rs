//! The variable-interpolation engine.
//!
//! A template is an opaque string that may contain shell-style variable
//! references: `$NAME`, `${NAME}`, and `$$` for a literal dollar sign.
//! Interpolation substitutes each reference with the value the resolver
//! binds the name to, fails fast on the first unresolved reference, and
//! passes everything else through unchanged.

use vstd::prelude::*;

use crate::context::{resolve_spec, ConfigEnvironment, ContextV};
use crate::errors::{PluginError, PluginErrorV};
use crate::strutil::push_char;

verus! {

/// Whether `c` may start a variable name: an ASCII letter or underscore.
pub open spec fn is_name_start_char(c: char) -> bool {
    (('A' as u32) <= (c as u32) && (c as u32) <= ('Z' as u32)) || (('a' as u32) <= (c as u32) && (
    c as u32) <= ('z' as u32)) || c == '_'
}

/// Whether `c` may continue a variable name: a name-start character or an
/// ASCII digit.
pub open spec fn is_name_char(c: char) -> bool {
    is_name_start_char(c) || (('0' as u32) <= (c as u32) && (c as u32) <= ('9' as u32))
}

/// The length of the longest run of name characters starting at `i`.
pub open spec fn name_run_len(t: Seq<char>, i: int) -> int
    decreases t.len() - i,
{
    if 0 <= i && i < t.len() && is_name_char(t[i]) {
        1 + name_run_len(t, i + 1)
    } else {
        0
    }
}

/// The position of the first `}` at or after `i`, if there is one.
pub open spec fn brace_end(t: Seq<char>, i: int) -> Option<int>
    decreases t.len() - i,
{
    if !(0 <= i && i < t.len()) {
        None
    } else if t[i] == '}' {
        Some(i)
    } else {
        brace_end(t, i + 1)
    }
}

/// Prepends a resolved piece to the rest of an interpolation, passing an
/// error through unchanged.
pub open spec fn prepend(piece: Seq<char>, rest: Result<Seq<char>, Seq<char>>) -> Result<
    Seq<char>,
    Seq<char>,
> {
    match rest {
        Ok(s) => Ok(piece + s),
        Err(e) => Err(e),
    }
}

/// What interpolating the template `t` from position `i` on yields: the
/// expanded text, or the unresolved variable name on the first reference
/// the resolver does not know.  One recursive step consumes one token: a
/// plain character, `$$`, `${NAME}`, `$NAME`, or a `$` that introduces no
/// reference and stands for itself.
pub open spec fn interp_from(t: Seq<char>, ctx: ContextV, service: Seq<char>, i: int) -> Result<
    Seq<char>,
    Seq<char>,
>
    decreases t.len() - i,
    via interp_from_decreases
{
    if !(0 <= i && i < t.len()) {
        Ok(Seq::empty())
    } else if t[i] != '$' {
        prepend(seq![t[i]], interp_from(t, ctx, service, i + 1))
    } else if i + 1 >= t.len() {
        prepend(seq!['$'], interp_from(t, ctx, service, i + 1))
    } else if t[i + 1] == '$' {
        prepend(seq!['$'], interp_from(t, ctx, service, i + 2))
    } else if t[i + 1] == '{' {
        match brace_end(t, i + 2) {
            None => Err(t.subrange(i + 2, t.len() as int)),
            Some(j) => {
                let name = t.subrange(i + 2, j);
                match resolve_spec(ctx, service, name) {
                    None => Err(name),
                    Some(v) => prepend(v, interp_from(t, ctx, service, j + 1)),
                }
            },
        }
    } else if is_name_start_char(t[i + 1]) {
        let n = name_run_len(t, i + 1);
        let name = t.subrange(i + 1, i + 1 + n);
        match resolve_spec(ctx, service, name) {
            None => Err(name),
            Some(v) => prepend(v, interp_from(t, ctx, service, i + 1 + n)),
        }
    } else {
        prepend(seq!['$'], interp_from(t, ctx, service, i + 1))
    }
}

#[via_fn]
proof fn interp_from_decreases(t: Seq<char>, ctx: ContextV, service: Seq<char>, i: int) {
    if 0 <= i && i + 1 < t.len() && t[i] == '$' {
        if t[i + 1] == '{' {
            lemma_brace_end(t, i + 2);
        }
        if is_name_start_char(t[i + 1]) {
            lemma_name_run(t, i + 1);
        }
    }
}

/// Interpolating the whole template `t`.
pub open spec fn interp(t: Seq<char>, ctx: ContextV, service: Seq<char>) -> Result<
    Seq<char>,
    Seq<char>,
> {
    interp_from(t, ctx, service, 0)
}

/// The name-character run starting at `i` stays inside the template, holds
/// name characters only, and is maximal.
pub proof fn lemma_name_run(t: Seq<char>, i: int)
    requires
        0 <= i <= t.len(),
    ensures
        0 <= name_run_len(t, i),
        i + name_run_len(t, i) <= t.len(),
        forall|m: int| i <= m < i + name_run_len(t, i) ==> is_name_char(t[m]),
        i + name_run_len(t, i) == t.len() || !is_name_char(t[i + name_run_len(t, i)]),
    decreases t.len() - i,
{
    if i < t.len() && is_name_char(t[i]) {
        lemma_name_run(t, i + 1);
    }
}

/// A scan that saw name characters up to `j` and a non-name character (or
/// the template's end) at `j` has found exactly the name-character run.
pub proof fn lemma_name_run_determined(t: Seq<char>, i: int, j: int)
    requires
        0 <= i <= j <= t.len(),
        forall|m: int| i <= m < j ==> is_name_char(t[m]),
        j == t.len() || !is_name_char(t[j]),
    ensures
        name_run_len(t, i) == j - i,
    decreases j - i,
{
    if i < j {
        lemma_name_run_determined(t, i + 1, j);
    }
}

/// Where `brace_end` points, there is a `}`, and none before it.
pub proof fn lemma_brace_end(t: Seq<char>, i: int)
    requires
        0 <= i,
    ensures
        match brace_end(t, i) {
            Some(j) => i <= j < t.len() && t[j] == '}' && (forall|m: int|
                i <= m < j ==> t[m] != '}'),
            None => forall|m: int| i <= m < t.len() ==> t[m] != '}',
        },
    decreases t.len() - i,
{
    if 0 <= i && i < t.len() && t[i] != '}' {
        lemma_brace_end(t, i + 1);
    }
}

/// A scan that found the first `}` at `j` agrees with `brace_end`.
pub proof fn lemma_brace_end_found(t: Seq<char>, i: int, j: int)
    requires
        0 <= i <= j < t.len(),
        t[j] == '}',
        forall|m: int| i <= m < j ==> t[m] != '}',
    ensures
        brace_end(t, i) == Some(j),
    decreases j - i,
{
    if i < j {
        lemma_brace_end_found(t, i + 1, j);
    }
}

/// A scan that saw no `}` up to the template's end agrees with `brace_end`.
pub proof fn lemma_brace_end_missing(t: Seq<char>, i: int)
    requires
        0 <= i,
        forall|m: int| i <= m < t.len() ==> t[m] != '}',
    ensures
        brace_end(t, i) is None,
    decreases t.len() - i,
{
    if i < t.len() {
        lemma_brace_end_missing(t, i + 1);
    }
}

/// The loop relation of [`interpolate`]: what has been expanded into `out`
/// so far, together with what interpolation from `i` on yields, accounts
/// for the whole template.
pub open spec fn interp_prefix_ok(
    t: Seq<char>,
    ctx: ContextV,
    service: Seq<char>,
    i: int,
    out: Seq<char>,
) -> bool {
    match interp_from(t, ctx, service, i) {
        Ok(rest) => interp(t, ctx, service) == Ok::<Seq<char>, Seq<char>>(out + rest),
        Err(e) => interp(t, ctx, service) == Err::<Seq<char>, Seq<char>>(e),
    }
}

proof fn lemma_prefix_step(
    t: Seq<char>,
    ctx: ContextV,
    service: Seq<char>,
    i: int,
    i2: int,
    out: Seq<char>,
    piece: Seq<char>,
)
    requires
        interp_prefix_ok(t, ctx, service, i, out),
        interp_from(t, ctx, service, i) == prepend(piece, interp_from(t, ctx, service, i2)),
    ensures
        interp_prefix_ok(t, ctx, service, i2, out + piece),
{
    if interp_from(t, ctx, service, i2) is Ok {
        let rest = interp_from(t, ctx, service, i2)->Ok_0;
        assert(out + (piece + rest) =~= (out + piece) + rest);
    }
}

/// How the result of [`interpolate`] relates to the [`interp`] model: on
/// success the expansion, on failure the unresolved name wrapped as an
/// [`PluginError::UndefinedVariable`].
pub open spec fn interp_result_matches(
    t: Seq<char>,
    ctx: ContextV,
    service: Seq<char>,
    r: Result<String, PluginError>,
) -> bool {
    match r {
        Ok(s) => interp(t, ctx, service) == Ok::<Seq<char>, Seq<char>>(s@),
        Err(e) => match e@ {
            PluginErrorV::UndefinedVariable(n) => interp(t, ctx, service) == Err::<
                Seq<char>,
                Seq<char>,
            >(n),
            _ => false,
        },
    }
}

/// Whether `c` may start a variable name.
fn is_name_start(c: char) -> (r: bool)
    ensures
        r == is_name_start_char(c),
{
    (('A' as u32) <= (c as u32) && (c as u32) <= ('Z' as u32)) || (('a' as u32) <= (c as u32) && (
    c as u32) <= ('z' as u32)) || c == '_'
}

/// Whether `c` may continue a variable name.
fn is_name_cont(c: char) -> (r: bool)
    ensures
        r == is_name_char(c),
{
    is_name_start(c) || (('0' as u32) <= (c as u32) && (c as u32) <= ('9' as u32))
}

/// Expands every variable reference in `template` using `env`, failing
/// fast on the first unresolved reference without applying anything
/// partially.  Templates without references pass through unchanged.
pub fn interpolate(template: &str, env: &ConfigEnvironment) -> (r: Result<String, PluginError>)
    ensures
        interp_result_matches(template@, env.ctx@, env.service@, r),
{
    let ghost t = template@;
    let ghost ctxv = env.ctx@;
    let ghost svc = env.service@;
    let t_len = template.unicode_len();
    let mut out = String::new();
    let mut i: usize = 0;
    while i < t_len
        invariant
            t_len == t.len(),
            t == template@,
            ctxv == env.ctx@,
            svc == env.service@,
            0 <= i <= t_len,
            interp_prefix_ok(t, ctxv, svc, i as int, out@),
        decreases t_len - i,
    {
        let c = template.get_char(i);
        if c != '$' {
            let ghost out0 = out@;
            proof {
                lemma_prefix_step(t, ctxv, svc, i as int, i + 1, out@, seq![c]);
            }
            push_char(&mut out, c);
            proof {
                assert(out@ =~= out0 + seq![c]);
            }
            i = i + 1;
        } else if i + 1 >= t_len {
            let ghost out0 = out@;
            proof {
                lemma_prefix_step(t, ctxv, svc, i as int, i + 1, out@, seq!['$']);
            }
            push_char(&mut out, '$');
            proof {
                assert(out@ =~= out0 + seq!['$']);
            }
            i = i + 1;
        } else {
            let c1 = template.get_char(i + 1);
            if c1 == '$' {
                let ghost out0 = out@;
                proof {
                    lemma_prefix_step(t, ctxv, svc, i as int, i + 2, out@, seq!['$']);
                }
                push_char(&mut out, '$');
                proof {
                    assert(out@ =~= out0 + seq!['$']);
                }
                i = i + 2;
            } else if c1 == '{' {
                let mut j = i + 2;
                while j < t_len && template.get_char(j) != '}'
                    invariant
                        t_len == t.len(),
                        t == template@,
                        i + 2 <= j <= t_len,
                        forall|m: int| i + 2 <= m < j ==> t[m] != '}',
                    decreases t_len - j,
                {
                    j = j + 1;
                }
                if j >= t_len {
                    let name = template.substring_char(i + 2, t_len).to_owned();
                    proof {
                        lemma_brace_end_missing(t, i + 2);
                    }
                    return Err(PluginError::UndefinedVariable(name));
                }
                let name = template.substring_char(i + 2, j);
                proof {
                    lemma_brace_end_found(t, i + 2, j as int);
                }
                match env.var(name) {
                    Ok(v) => {
                        proof {
                            lemma_prefix_step(t, ctxv, svc, i as int, j + 1, out@, v@);
                        }
                        out.append(v.as_str());
                        i = j + 1;
                    },
                    Err(e) => {
                        return Err(e);
                    },
                }
            } else if is_name_start(c1) {
                let mut j = i + 1;
                while j < t_len && is_name_cont(template.get_char(j))
                    invariant
                        t_len == t.len(),
                        t == template@,
                        i + 1 <= j <= t_len,
                        forall|m: int| i + 1 <= m < j ==> is_name_char(t[m]),
                    decreases t_len - j,
                {
                    j = j + 1;
                }
                proof {
                    lemma_name_run_determined(t, i + 1, j as int);
                }
                let name = template.substring_char(i + 1, j);
                match env.var(name) {
                    Ok(v) => {
                        proof {
                            lemma_prefix_step(t, ctxv, svc, i as int, j as int, out@, v@);
                        }
                        out.append(v.as_str());
                        i = j;
                    },
                    Err(e) => {
                        return Err(e);
                    },
                }
            } else {
                let ghost out0 = out@;
                proof {
                    lemma_prefix_step(t, ctxv, svc, i as int, i + 1, out@, seq!['$']);
                }
                push_char(&mut out, '$');
                proof {
                    assert(out@ =~= out0 + seq!['$']);
                }
                i = i + 1;
            }
        }
    }
    proof {
        assert(out@ + Seq::<char>::empty() =~= out@);
    }
    Ok(out)
}


/// What interpolating every template of `ts` from position `i` on yields,
/// in order, stopping at the first unresolved reference.
pub open spec fn interp_all(ts: Seq<Seq<char>>, ctx: ContextV, service: Seq<char>, i: int) -> Result<
    Seq<Seq<char>>,
    Seq<char>,
>
    decreases ts.len() - i,
{
    if !(0 <= i && i < ts.len()) {
        Ok(Seq::empty())
    } else {
        match interp(ts[i], ctx, service) {
            Err(n) => Err(n),
            Ok(v) => match interp_all(ts, ctx, service, i + 1) {
                Err(n) => Err(n),
                Ok(rest) => Ok(seq![v] + rest),
            },
        }
    }
}

/// How the result of [`interpolate_all`] relates to the [`interp_all`]
/// model.
pub open spec fn interp_all_result_matches(
    ts: Seq<Seq<char>>,
    ctx: ContextV,
    service: Seq<char>,
    r: Result<Vec<String>, PluginError>,
) -> bool {
    match r {
        Ok(vs) => interp_all(ts, ctx, service, 0) == Ok::<Seq<Seq<char>>, Seq<char>>(
            vs.deep_view(),
        ),
        Err(e) => match e@ {
            PluginErrorV::UndefinedVariable(n) => interp_all(ts, ctx, service, 0) == Err::<
                Seq<Seq<char>>,
                Seq<char>,
            >(n),
            _ => false,
        },
    }
}

/// Interpolates every template of `ts`, in order, failing fast on the
/// first unresolved reference.
pub fn interpolate_all(ts: &Vec<String>, env: &ConfigEnvironment) -> (r: Result<
    Vec<String>,
    PluginError,
>)
    ensures
        interp_all_result_matches(ts.deep_view(), env.ctx@, env.service@, r),
{
    let ghost tsv = ts.deep_view();
    let ghost ctxv = env.ctx@;
    let ghost svc = env.service@;
    let mut out: Vec<String> = Vec::new();
    let mut i: usize = 0;
    while i < ts.len()
        invariant
            tsv == ts.deep_view(),
            ctxv == env.ctx@,
            svc == env.service@,
            tsv.len() == ts@.len(),
            0 <= i <= ts@.len(),
            out.deep_view().len() == i,
            ({
                match interp_all(tsv, ctxv, svc, i as int) {
                    Ok(rest) => interp_all(tsv, ctxv, svc, 0) == Ok::<Seq<Seq<char>>, Seq<char>>(
                        out.deep_view() + rest,
                    ),
                    Err(n) => interp_all(tsv, ctxv, svc, 0) == Err::<Seq<Seq<char>>, Seq<char>>(n),
                }
            }),
        decreases ts@.len() - i,
    {
        let ghost out0 = out.deep_view();
        match interpolate(ts[i].as_str(), env) {
            Ok(v) => {
                let ghost vv = v@;
                out.push(v);
                proof {
                    assert(out@.len() == out0.len() + 1);
                    assert(forall|j: int| 0 <= j < out0.len() ==> out.deep_view()[j] == out0[j]);
                    assert(out.deep_view()[out0.len() as int] == vv);
                    assert(out.deep_view() =~= out0 + seq![vv]);
                    if interp_all(tsv, ctxv, svc, i + 1) is Ok {
                        let rest = interp_all(tsv, ctxv, svc, i + 1)->Ok_0;
                        assert(out0 + (seq![vv] + rest) =~= (out0 + seq![vv]) + rest);
                    }
                }
                i = i + 1;
            },
            Err(e) => {
                return Err(e);
            },
        }
    }
    proof {
        assert(out.deep_view() + Seq::<Seq<char>>::empty() =~= out.deep_view());
    }
    Ok(out)
}


/// Interpolating from a position inside the second half of a concatenation
/// is interpolating the second half.
proof fn lemma_interp_all_shift(
    a: Seq<Seq<char>>,
    b: Seq<Seq<char>>,
    ctx: ContextV,
    service: Seq<char>,
    j: int,
)
    requires
        0 <= j <= b.len(),
    ensures
        interp_all(a + b, ctx, service, a.len() + j) == interp_all(b, ctx, service, j),
    decreases b.len() - j,
{
    if j < b.len() {
        assert((a + b)[a.len() + j] == b[j]);
        lemma_interp_all_shift(a, b, ctx, service, j + 1);
    }
}

proof fn lemma_interp_all_concat_from(
    a: Seq<Seq<char>>,
    b: Seq<Seq<char>>,
    ctx: ContextV,
    service: Seq<char>,
    i: int,
)
    requires
        0 <= i <= a.len(),
    ensures
        interp_all(a + b, ctx, service, i) == (match interp_all(a, ctx, service, i) {
            Err(n) => Err::<Seq<Seq<char>>, Seq<char>>(n),
            Ok(va) => match interp_all(b, ctx, service, 0) {
                Err(n) => Err::<Seq<Seq<char>>, Seq<char>>(n),
                Ok(vb) => Ok::<Seq<Seq<char>>, Seq<char>>(va + vb),
            },
        }),
    decreases a.len() - i,
{
    if i == a.len() {
        lemma_interp_all_shift(a, b, ctx, service, 0);
        if interp_all(b, ctx, service, 0) is Ok {
            let vb = interp_all(b, ctx, service, 0)->Ok_0;
            assert(Seq::<Seq<char>>::empty() + vb =~= vb);
        }
    } else {
        assert((a + b)[i] == a[i]);
        lemma_interp_all_concat_from(a, b, ctx, service, i + 1);
        if interp(a[i], ctx, service) is Ok && interp_all(a, ctx, service, i + 1) is Ok
            && interp_all(b, ctx, service, 0) is Ok {
            let v = interp(a[i], ctx, service)->Ok_0;
            let va = interp_all(a, ctx, service, i + 1)->Ok_0;
            let vb = interp_all(b, ctx, service, 0)->Ok_0;
            assert(seq![v] + (va + vb) =~= (seq![v] + va) + vb);
        }
    }
}

/// Interpolating a concatenated template list is interpolating both
/// halves in order, stopping at the first unresolved reference.
pub proof fn lemma_interp_all_concat(
    a: Seq<Seq<char>>,
    b: Seq<Seq<char>>,
    ctx: ContextV,
    service: Seq<char>,
)
    ensures
        interp_all(a + b, ctx, service, 0) == (match interp_all(a, ctx, service, 0) {
            Err(n) => Err::<Seq<Seq<char>>, Seq<char>>(n),
            Ok(va) => match interp_all(b, ctx, service, 0) {
                Err(n) => Err::<Seq<Seq<char>>, Seq<char>>(n),
                Ok(vb) => Ok::<Seq<Seq<char>>, Seq<char>>(va + vb),
            },
        }),
{
    lemma_interp_all_concat_from(a, b, ctx, service, 0);
}

} // verus!
