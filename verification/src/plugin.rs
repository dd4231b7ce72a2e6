//! The plugin orchestrator: drives resolver, interpolator, policy
//! composer and secret backend over every service of the merged
//! definition tree, mutating each service's environment in place.

use vstd::prelude::*;

use crate::config::{composed_templates, Config, ConfigV};
use crate::context::{ConfigEnvironment, Context, ContextV};
use crate::errors::{PluginError, PluginErrorV};
use crate::interpolate::{interp, interp_all, interpolate, interpolate_all};
use crate::tree::{File, ServiceV};
use crate::vault::{generate_post, mock_token, CallV, TokenSource};

verus! {

/// The display name a service's token is requested under: a pure function
/// of the deployment identity.
pub open spec fn display_name_spec(ctx: ContextV, service: Seq<char>) -> Seq<char> {
    ctx.project + "-"@ + ctx.ovr + "-"@ + ctx.pod + "-"@ + service
}

/// Builds the display name `"{project}-{override}-{pod}-{service}"`.
pub fn display_name(ctx: &Context, service: &str) -> (r: String)
    ensures
        r@ == display_name_spec(ctx@, service@),
{
    let mut s = ctx.project.clone();
    s.append("-");
    s.append(ctx.ovr.as_str());
    s.append("-");
    s.append(ctx.pod.as_str());
    s.append("-");
    s.append(service);
    s
}

/// Folds the extra-environment entries from position `i` on into `env`:
/// each template is interpolated and inserted under its name, overwriting
/// whatever the name had; the first unresolved reference stops the fold
/// and is reported, with the earlier insertions kept.
pub open spec fn apply_extra(
    env: Map<Seq<char>, Seq<char>>,
    extra: Seq<(Seq<char>, Seq<char>)>,
    ctx: ContextV,
    service: Seq<char>,
    i: int,
) -> (Map<Seq<char>, Seq<char>>, Option<Seq<char>>)
    decreases extra.len() - i,
{
    if !(0 <= i && i < extra.len()) {
        (env, None)
    } else {
        match interp(extra[i].1, ctx, service) {
            Err(n) => (env, Some(n)),
            Ok(v) => apply_extra(env.insert(extra[i].0, v), extra, ctx, service, i + 1),
        }
    }
}

/// The token request one service gives rise to, once its policy templates
/// resolve.
pub open spec fn service_call(cfg: ConfigV, ctx: ContextV, name: Seq<char>) -> CallV {
    CallV {
        display_name: display_name_spec(ctx, name),
        policies: interp_all(composed_templates(cfg, ctx.pod, name), ctx, name, 0)->Ok_0,
        ttl: cfg.default_ttl,
    }
}

/// What processing one service leaves behind.
pub struct StepV {
    /// The service afterward.
    pub service: ServiceV,
    /// The token requests the backend saw for this service.
    pub calls: Seq<CallV>,
    /// The error that stopped the transform here, if one did.
    pub error: Option<PluginErrorV>,
}

/// Processing one service, given the backend's answer `token` for it:
/// `VAULT_ADDR` goes in first; then the policy list is composed and
/// interpolated; then the token is requested and inserted as
/// `VAULT_TOKEN`; then the extra environment is folded in.  The first
/// failure stops the step, keeping the insertions already made.
pub open spec fn step_of(
    cfg: ConfigV,
    ctx: ContextV,
    addr: Seq<char>,
    sv: ServiceV,
    token: Result<Seq<char>, PluginErrorV>,
) -> StepV {
    let env1 = sv.environment.insert("VAULT_ADDR"@, addr);
    match interp_all(composed_templates(cfg, ctx.pod, sv.name), ctx, sv.name, 0) {
        Err(n) => StepV {
            service: ServiceV { name: sv.name, environment: env1 },
            calls: Seq::empty(),
            error: Some(PluginErrorV::UndefinedVariable(n)),
        },
        Ok(_) => {
            let call = service_call(cfg, ctx, sv.name);
            match token {
                Err(e) => StepV {
                    service: ServiceV { name: sv.name, environment: env1 },
                    calls: seq![call],
                    error: Some(e),
                },
                Ok(tok) => {
                    let env2 = env1.insert("VAULT_TOKEN"@, tok);
                    let folded = apply_extra(env2, cfg.extra_environment, ctx, sv.name, 0);
                    StepV {
                        service: ServiceV { name: sv.name, environment: folded.0 },
                        calls: seq![call],
                        error: match folded.1 {
                            None => None,
                            Some(n) => Some(PluginErrorV::UndefinedVariable(n)),
                        },
                    }
                },
            }
        },
    }
}

/// The backend's answer for service `i`, with an arbitrary failure where
/// the answer sequence is too short.
pub open spec fn tok_at(tokens: Seq<Result<Seq<char>, PluginErrorV>>, i: int) -> Result<
    Seq<char>,
    PluginErrorV,
> {
    if 0 <= i && i < tokens.len() {
        tokens[i]
    } else {
        Err(PluginErrorV::BackendUnavailable)
    }
}

/// What a whole transform pass leaves behind.
pub struct OutcomeV {
    /// Every service of the tree afterward, in order.
    pub services: Seq<ServiceV>,
    /// The token requests the backend saw, in order.
    pub calls: Seq<CallV>,
    /// The first error, if any service failed.
    pub error: Option<PluginErrorV>,
}

/// Processing the services from position `i` on, given the backend's
/// answers: services are taken in presentation order; the first failure
/// stops the iteration, and the services already processed keep their
/// mutations.
pub open spec fn run_transform(
    cfg: ConfigV,
    ctx: ContextV,
    addr: Seq<char>,
    services: Seq<ServiceV>,
    tokens: Seq<Result<Seq<char>, PluginErrorV>>,
    i: int,
) -> OutcomeV
    decreases services.len() - i,
{
    if !(0 <= i && i < services.len()) {
        OutcomeV { services, calls: Seq::empty(), error: None }
    } else {
        let st = step_of(cfg, ctx, addr, services[i], tok_at(tokens, i));
        let updated = services.update(i, st.service);
        match st.error {
            Some(e) => OutcomeV { services: updated, calls: st.calls, error: Some(e) },
            None => {
                let rest = run_transform(cfg, ctx, addr, updated, tokens, i + 1);
                OutcomeV {
                    services: rest.services,
                    calls: st.calls + rest.calls,
                    error: rest.error,
                }
            },
        }
    }
}

/// The position of the first service whose step fails, or the number of
/// services if none does.
pub open spec fn fail_index(
    cfg: ConfigV,
    ctx: ContextV,
    addr: Seq<char>,
    services: Seq<ServiceV>,
    tokens: Seq<Result<Seq<char>, PluginErrorV>>,
    i: int,
) -> int
    decreases services.len() - i,
{
    if !(0 <= i && i < services.len()) {
        services.len() as int
    } else if step_of(cfg, ctx, addr, services[i], tok_at(tokens, i)).error is Some {
        i
    } else {
        fail_index(cfg, ctx, addr, services, tokens, i + 1)
    }
}

/// The token requests of the services in `[i, k)`, one per service.
pub open spec fn expected_calls_range(
    cfg: ConfigV,
    ctx: ContextV,
    services: Seq<ServiceV>,
    i: int,
    k: int,
) -> Seq<CallV> {
    Seq::new((k - i) as nat, |j: int| service_call(cfg, ctx, services[i + j].name))
}

/// `fail_index` only reads the services from `i` on.
proof fn lemma_fail_index_congruent(
    cfg: ConfigV,
    ctx: ContextV,
    addr: Seq<char>,
    s1: Seq<ServiceV>,
    s2: Seq<ServiceV>,
    tokens: Seq<Result<Seq<char>, PluginErrorV>>,
    i: int,
)
    requires
        s1.len() == s2.len(),
        forall|j: int| i <= j < s1.len() ==> s1[j] == s2[j],
        0 <= i,
    ensures
        fail_index(cfg, ctx, addr, s1, tokens, i) == fail_index(cfg, ctx, addr, s2, tokens, i),
    decreases s1.len() - i,
{
    if i < s1.len() {
        lemma_fail_index_congruent(cfg, ctx, addr, s1, s2, tokens, i + 1);
    }
}

/// Where every step from `i` on succeeds, nothing fails.
proof fn lemma_fail_index_all_ok(
    cfg: ConfigV,
    ctx: ContextV,
    addr: Seq<char>,
    services: Seq<ServiceV>,
    tokens: Seq<Result<Seq<char>, PluginErrorV>>,
    i: int,
)
    requires
        0 <= i <= services.len(),
        forall|j: int|
            i <= j < services.len() ==> step_of(cfg, ctx, addr, services[j], tok_at(tokens, j)).error
                is None,
    ensures
        fail_index(cfg, ctx, addr, services, tokens, i) == services.len(),
    decreases services.len() - i,
{
    if i < services.len() {
        lemma_fail_index_all_ok(cfg, ctx, addr, services, tokens, i + 1);
    }
}

/// Where the steps before `k` succeed and the step at `k` fails, `k` is
/// the failure position.
proof fn lemma_fail_index_first(
    cfg: ConfigV,
    ctx: ContextV,
    addr: Seq<char>,
    services: Seq<ServiceV>,
    tokens: Seq<Result<Seq<char>, PluginErrorV>>,
    i: int,
    k: int,
)
    requires
        0 <= i <= k < services.len(),
        forall|j: int|
            i <= j < k ==> step_of(cfg, ctx, addr, services[j], tok_at(tokens, j)).error is None,
        step_of(cfg, ctx, addr, services[k], tok_at(tokens, k)).error is Some,
    ensures
        fail_index(cfg, ctx, addr, services, tokens, i) == k,
    decreases k - i,
{
    if i < k {
        lemma_fail_index_first(cfg, ctx, addr, services, tokens, i + 1, k);
    }
}

/// The shape of a whole transform pass, service by service: the services
/// before the failure position are fully processed and keep their
/// mutations, the one at it keeps what was applied before the failure,
/// those after it are untouched, and the backend saw one request per
/// service that got as far as the token step.  Where nothing fails the
/// failure position is the number of services and every service is fully
/// processed.
pub proof fn lemma_run_transform_pointwise(
    cfg: ConfigV,
    ctx: ContextV,
    addr: Seq<char>,
    services: Seq<ServiceV>,
    tokens: Seq<Result<Seq<char>, PluginErrorV>>,
    i: int,
)
    requires
        0 <= i <= services.len(),
    ensures
        ({
            let out = run_transform(cfg, ctx, addr, services, tokens, i);
            let k = fail_index(cfg, ctx, addr, services, tokens, i);
            &&& i <= k <= services.len()
            &&& (forall|j: int|
                i <= j < k ==> step_of(cfg, ctx, addr, services[j], tok_at(tokens, j)).error
                    is None)
            &&& (k < services.len() ==> step_of(
                cfg,
                ctx,
                addr,
                services[k],
                tok_at(tokens, k),
            ).error is Some)
            &&& out.error == (if k < services.len() {
                step_of(cfg, ctx, addr, services[k], tok_at(tokens, k)).error
            } else {
                None::<PluginErrorV>
            })
            &&& out.services.len() == services.len()
            &&& (forall|j: int|
                i <= j < k ==> out.services[j] == step_of(
                    cfg,
                    ctx,
                    addr,
                    services[j],
                    tok_at(tokens, j),
                ).service)
            &&& (k < services.len() ==> out.services[k] == step_of(
                cfg,
                ctx,
                addr,
                services[k],
                tok_at(tokens, k),
            ).service)
            &&& (forall|j: int| 0 <= j < i ==> out.services[j] == services[j])
            &&& (forall|j: int| k < j < services.len() ==> out.services[j] == services[j])
            &&& out.calls == expected_calls_range(cfg, ctx, services, i, k) + (if k
                < services.len() {
                step_of(cfg, ctx, addr, services[k], tok_at(tokens, k)).calls
            } else {
                Seq::<CallV>::empty()
            })
        }),
    decreases services.len() - i,
{
    let out = run_transform(cfg, ctx, addr, services, tokens, i);
    let k = fail_index(cfg, ctx, addr, services, tokens, i);
    if i < services.len() {
        let tok = tok_at(tokens, i);
        let st = step_of(cfg, ctx, addr, services[i], tok);
        let updated = services.update(i, st.service);
        if st.error is Some {
            assert(k == i);
            assert(out.calls =~= expected_calls_range(cfg, ctx, services, i, i) + st.calls);
        } else {
            lemma_run_transform_pointwise(cfg, ctx, addr, updated, tokens, i + 1);
            lemma_fail_index_congruent(cfg, ctx, addr, updated, services, tokens, i + 1);
            let k2 = fail_index(cfg, ctx, addr, services, tokens, i + 1);
            assert(k == k2);
            let rest = run_transform(cfg, ctx, addr, updated, tokens, i + 1);
            assert(st.calls =~= seq![service_call(cfg, ctx, services[i].name)]);
            assert(expected_calls_range(cfg, ctx, updated, i + 1, k2) =~= expected_calls_range(
                cfg,
                ctx,
                services,
                i + 1,
                k2,
            ));
            assert(out.calls =~= expected_calls_range(cfg, ctx, services, i, k) + (if k
                < services.len() {
                step_of(cfg, ctx, addr, services[k], tok_at(tokens, k)).calls
            } else {
                Seq::<CallV>::empty()
            }));
        }
    }
}

/// How the backend handle evolves over one transform pass that saw the
/// requests `calls` and answered with `tokens`: the mock records exactly
/// the requests and answers the fixed token every time; the live backend
/// keeps no state and fails only with a backend error.
pub open spec fn gen_evolved(
    g0: TokenSource,
    g1: TokenSource,
    calls: Seq<CallV>,
    tokens: Seq<Result<Seq<char>, PluginErrorV>>,
) -> bool {
    match g0 {
        TokenSource::Mock(m0) => {
            &&& (forall|j: int|
                0 <= j < tokens.len() ==> tokens[j] == Ok::<Seq<char>, PluginErrorV>(mock_token()))
            &&& (g1 matches TokenSource::Mock(m1) && m1@ == m0@ + calls)
        },
        TokenSource::Live(_) => {
            &&& g1 == g0
            &&& (forall|j: int|
                0 <= j < tokens.len() ==> (#[trigger] tokens[j] matches Err(e) ==> e
                    == PluginErrorV::BackendUnavailable || e == PluginErrorV::AuthenticationFailed))
        },
    }
}

/// One witness sequence of backend answers under which the transform pass
/// is accounted for exactly.
pub open spec fn transform_run_matches(
    cfg: ConfigV,
    ctx: ContextV,
    g0: TokenSource,
    g1: TokenSource,
    services0: Seq<ServiceV>,
    services1: Seq<ServiceV>,
    tokens: Seq<Result<Seq<char>, PluginErrorV>>,
    r: Result<(), PluginError>,
) -> bool {
    let out = run_transform(cfg, ctx, g0.addr_spec(), services0, tokens, 0);
    &&& tokens.len() == services0.len()
    &&& services1 == out.services
    &&& (match r {
        Ok(_) => out.error is None,
        Err(e) => out.error == Some(e@),
    })
    &&& gen_evolved(g0, g1, out.calls, tokens)
}

/// What [`Plugin::transform`] guarantees: some sequence of backend
/// answers accounts for the result, the new tree and the new backend
/// state, under the [`run_transform`] model.
pub open spec fn transform_post(
    cfg: ConfigV,
    ctx: ContextV,
    g0: TokenSource,
    g1: TokenSource,
    services0: Seq<ServiceV>,
    services1: Seq<ServiceV>,
    r: Result<(), PluginError>,
) -> bool {
    exists|tokens: Seq<Result<Seq<char>, PluginErrorV>>|
        transform_run_matches(cfg, ctx, g0, g1, services0, services1, tokens, r)
}



/// One backend call extends the evolution of the backend handle: the
/// request is appended to the expected calls and the answer to the answer
/// sequence.
proof fn lemma_gen_step(
    g0: TokenSource,
    g_pre: TokenSource,
    g_new: TokenSource,
    prefix: Seq<CallV>,
    call: CallV,
    tokens: Seq<Result<Seq<char>, PluginErrorV>>,
    dn: Seq<char>,
    policies: Seq<Seq<char>>,
    ttl: u64,
    r: Result<String, PluginError>,
    entry: Result<Seq<char>, PluginErrorV>,
)
    requires
        gen_evolved(g0, g_pre, prefix, tokens),
        generate_post(g_pre, g_new, dn, policies, ttl, r),
        call == (CallV { display_name: dn, policies, ttl }),
        match r {
            Ok(t) => entry == Ok::<Seq<char>, PluginErrorV>(t@),
            Err(e) => entry == Err::<Seq<char>, PluginErrorV>(e@),
        },
    ensures
        gen_evolved(g0, g_new, prefix + seq![call], tokens.push(entry)),
{
    let pushed = tokens.push(entry);
    match g0 {
        TokenSource::Mock(m0) => {
            assert((m0@ + prefix).push(call) =~= m0@ + (prefix + seq![call]));
            assert forall|j: int| 0 <= j < pushed.len() implies pushed[j] == Ok::<
                Seq<char>,
                PluginErrorV,
            >(mock_token()) by {
                if j < tokens.len() {
                    assert(pushed[j] == tokens[j]);
                }
            }
        },
        TokenSource::Live(_) => {
            assert forall|j: int|
                0 <= j < pushed.len() implies (#[trigger] pushed[j] matches Err(e) ==> e
                == PluginErrorV::BackendUnavailable || e == PluginErrorV::AuthenticationFailed) by {
                if j < tokens.len() {
                    assert(pushed[j] == tokens[j]);
                }
            }
        },
    }
}

/// Packages the loop facts of a failed transform pass into the
/// transform's contract: the prefix succeeded, the step at `idx` failed
/// with `e`, everything later is untouched.
proof fn lemma_conclude_error(
    cfg: ConfigV,
    ctxv: ContextV,
    g0: TokenSource,
    g1: TokenSource,
    services0: Seq<ServiceV>,
    final_services: Seq<ServiceV>,
    tokens_prefix: Seq<Result<Seq<char>, PluginErrorV>>,
    entry: Result<Seq<char>, PluginErrorV>,
    idx: int,
    e: PluginError,
)
    requires
        0 <= idx < services0.len(),
        tokens_prefix.len() == idx,
        forall|j: int|
            0 <= j < idx ==> step_of(cfg, ctxv, g0.addr_spec(), services0[j], tokens_prefix[j]).error
                is None,
        step_of(cfg, ctxv, g0.addr_spec(), services0[idx], entry).error == Some(e@),
        final_services.len() == services0.len(),
        forall|j: int|
            0 <= j < idx ==> final_services[j] == step_of(
                cfg,
                ctxv,
                g0.addr_spec(),
                services0[j],
                tokens_prefix[j],
            ).service,
        final_services[idx] == step_of(cfg, ctxv, g0.addr_spec(), services0[idx], entry).service,
        forall|j: int| idx < j < services0.len() ==> final_services[j] == services0[j],
        gen_evolved(
            g0,
            g1,
            expected_calls_range(cfg, ctxv, services0, 0, idx) + step_of(
                cfg,
                ctxv,
                g0.addr_spec(),
                services0[idx],
                entry,
            ).calls,
            tokens_prefix.push(entry),
        ),
    ensures
        transform_post(cfg, ctxv, g0, g1, services0, final_services, Err(e)),
{
    let addr_s = g0.addr_spec();
    let pushed = tokens_prefix.push(entry);
    let pad = Seq::new(
        (services0.len() - idx - 1) as nat,
        |_j: int| Ok::<Seq<char>, PluginErrorV>(mock_token()),
    );
    let tokens_full = pushed + pad;
    assert(tokens_full.len() == services0.len());
    assert forall|j: int| 0 <= j <= idx implies tok_at(tokens_full, j) == pushed[j] by {
        assert(tokens_full[j] == pushed[j]);
    }
    assert(tok_at(tokens_full, idx) == entry);
    assert forall|j: int| idx < j < tokens_full.len() implies tokens_full[j] == Ok::<
        Seq<char>,
        PluginErrorV,
    >(mock_token()) by {
        assert(tokens_full[j] == pad[j - pushed.len()]);
    }
    lemma_fail_index_first(cfg, ctxv, addr_s, services0, tokens_full, 0, idx);
    lemma_run_transform_pointwise(cfg, ctxv, addr_s, services0, tokens_full, 0);
    let out = run_transform(cfg, ctxv, addr_s, services0, tokens_full, 0);
    assert(final_services =~= out.services);
    let step_calls = step_of(cfg, ctxv, addr_s, services0[idx], entry).calls;
    assert(out.calls =~= expected_calls_range(cfg, ctxv, services0, 0, idx) + step_calls);
    assert(gen_evolved(g0, g1, out.calls, tokens_full));
    assert(transform_run_matches(
        cfg,
        ctxv,
        g0,
        g1,
        services0,
        final_services,
        tokens_full,
        Err(e),
    ));
}

/// Packages the loop facts of a completed transform pass into the
/// transform's contract: every step succeeded.
proof fn lemma_conclude_ok(
    cfg: ConfigV,
    ctxv: ContextV,
    g0: TokenSource,
    g1: TokenSource,
    services0: Seq<ServiceV>,
    final_services: Seq<ServiceV>,
    tokens: Seq<Result<Seq<char>, PluginErrorV>>,
)
    requires
        tokens.len() == services0.len(),
        forall|j: int|
            0 <= j < services0.len() ==> step_of(
                cfg,
                ctxv,
                g0.addr_spec(),
                services0[j],
                tokens[j],
            ).error is None,
        final_services.len() == services0.len(),
        forall|j: int|
            0 <= j < services0.len() ==> final_services[j] == step_of(
                cfg,
                ctxv,
                g0.addr_spec(),
                services0[j],
                tokens[j],
            ).service,
        gen_evolved(
            g0,
            g1,
            expected_calls_range(cfg, ctxv, services0, 0, services0.len() as int),
            tokens,
        ),
    ensures
        transform_post(cfg, ctxv, g0, g1, services0, final_services, Ok(())),
{
    let addr_s = g0.addr_spec();
    assert forall|j: int| 0 <= j < services0.len() implies step_of(
        cfg,
        ctxv,
        addr_s,
        services0[j],
        tok_at(tokens, j),
    ).error is None by {
        assert(tok_at(tokens, j) == tokens[j]);
    }
    lemma_fail_index_all_ok(cfg, ctxv, addr_s, services0, tokens, 0);
    lemma_run_transform_pointwise(cfg, ctxv, addr_s, services0, tokens, 0);
    let out = run_transform(cfg, ctxv, addr_s, services0, tokens, 0);
    assert(final_services =~= out.services);
    assert(out.calls =~= expected_calls_range(cfg, ctxv, services0, 0, services0.len() as int));
    assert(gen_evolved(g0, g1, out.calls, tokens));
    assert(transform_run_matches(
        cfg,
        ctxv,
        g0,
        g1,
        services0,
        final_services,
        tokens,
        Ok(()),
    ));
}


/// The resolved policy list for one service is the interpolation of the
/// defaults followed by the interpolation of the pod- and
/// service-specific additions, in that order, duplicates kept; where the
/// document has no entry for the pod and service, it is the interpolation
/// of the defaults alone.
pub proof fn lemma_resolved_policy_composition(cfg: ConfigV, ctx: ContextV, service: Seq<char>)
    ensures
        ({
            let whole = interp_all(composed_templates(cfg, ctx.pod, service), ctx, service, 0);
            let defaults = interp_all(cfg.default_policies, ctx, service, 0);
            let additions = interp_all(
                crate::config::pod_service_policies(cfg, ctx.pod, service),
                ctx,
                service,
                0,
            );
            whole == (match defaults {
                Err(n) => Err::<Seq<Seq<char>>, Seq<char>>(n),
                Ok(va) => match additions {
                    Err(n) => Err::<Seq<Seq<char>>, Seq<char>>(n),
                    Ok(vb) => Ok::<Seq<Seq<char>>, Seq<char>>(va + vb),
                },
            })
        }),
        crate::config::pod_service_policies(cfg, ctx.pod, service).len() == 0 ==> interp_all(
            composed_templates(cfg, ctx.pod, service),
            ctx,
            service,
            0,
        ) == interp_all(cfg.default_policies, ctx, service, 0),
{
    crate::interpolate::lemma_interp_all_concat(
        cfg.default_policies,
        crate::config::pod_service_policies(cfg, ctx.pod, service),
        ctx,
        service,
    );
    let additions = crate::config::pod_service_policies(cfg, ctx.pod, service);
    if additions.len() == 0 {
        if interp_all(cfg.default_policies, ctx, service, 0) is Ok {
            let va = interp_all(cfg.default_policies, ctx, service, 0)->Ok_0;
            assert(va + Seq::<Seq<char>>::empty() =~= va);
        }
    }
}

/// Folding the extra environment never touches a name no entry carries.
proof fn lemma_apply_extra_preserves(
    env: Map<Seq<char>, Seq<char>>,
    extra: Seq<(Seq<char>, Seq<char>)>,
    ctx: ContextV,
    service: Seq<char>,
    i: int,
    k: Seq<char>,
)
    requires
        forall|j: int| i <= j < extra.len() ==> extra[j].0 != k,
    ensures
        ({
            let folded = apply_extra(env, extra, ctx, service, i);
            &&& folded.0.contains_key(k) == env.contains_key(k)
            &&& (env.contains_key(k) ==> folded.0[k] == env[k])
        }),
    decreases extra.len() - i,
{
    if 0 <= i && i < extra.len() {
        match interp(extra[i].1, ctx, service) {
            Err(_) => {},
            Ok(v) => {
                lemma_apply_extra_preserves(
                    env.insert(extra[i].0, v),
                    extra,
                    ctx,
                    service,
                    i + 1,
                    k,
                );
            },
        }
    }
}

/// Where the whole extra environment folds in without error, an entry
/// whose name no later entry repeats decides that name's final value,
/// overwriting whatever the environment held before -- including values
/// the transform itself put there.
pub proof fn lemma_extra_environment_overwrites(
    env: Map<Seq<char>, Seq<char>>,
    extra: Seq<(Seq<char>, Seq<char>)>,
    ctx: ContextV,
    service: Seq<char>,
    i: int,
    m: int,
)
    requires
        0 <= i <= m < extra.len(),
        forall|j: int| m < j < extra.len() ==> extra[j].0 != extra[m].0,
        apply_extra(env, extra, ctx, service, i).1 is None,
    ensures
        interp(extra[m].1, ctx, service) is Ok,
        apply_extra(env, extra, ctx, service, i).0.contains_key(extra[m].0),
        apply_extra(env, extra, ctx, service, i).0[extra[m].0] == interp(
            extra[m].1,
            ctx,
            service,
        )->Ok_0,
    decreases m - i,
{
    let v = interp(extra[i].1, ctx, service)->Ok_0;
    if i < m {
        lemma_extra_environment_overwrites(
            env.insert(extra[i].0, v),
            extra,
            ctx,
            service,
            i + 1,
            m,
        );
    } else {
        lemma_apply_extra_preserves(
            env.insert(extra[m].0, v),
            extra,
            ctx,
            service,
            m + 1,
            extra[m].0,
        );
    }
}

/// For every service processed without error, the environment afterward
/// holds `VAULT_ADDR` with the backend's address and `VAULT_TOKEN` with
/// the token the backend answered for that service's request -- provided
/// no extra-environment entry overwrites those two names.
pub proof fn lemma_transform_sets_vault_env(
    cfg: ConfigV,
    ctx: ContextV,
    addr: Seq<char>,
    services: Seq<ServiceV>,
    tokens: Seq<Result<Seq<char>, PluginErrorV>>,
)
    requires
        tokens.len() == services.len(),
        forall|j: int|
            0 <= j < cfg.extra_environment.len() ==> cfg.extra_environment[j].0 != "VAULT_ADDR"@
                && cfg.extra_environment[j].0 != "VAULT_TOKEN"@,
        run_transform(cfg, ctx, addr, services, tokens, 0).error is None,
    ensures
        ({
            let out = run_transform(cfg, ctx, addr, services, tokens, 0);
            forall|i: int|
                0 <= i < services.len() ==> {
                    &&& #[trigger] tokens[i] is Ok
                    &&& out.services[i].environment.contains_key("VAULT_ADDR"@)
                    &&& out.services[i].environment["VAULT_ADDR"@] == addr
                    &&& out.services[i].environment.contains_key("VAULT_TOKEN"@)
                    &&& out.services[i].environment["VAULT_TOKEN"@] == tokens[i]->Ok_0
                }
        }),
{
    reveal_strlit("VAULT_ADDR");
    reveal_strlit("VAULT_TOKEN");
    assert("VAULT_ADDR"@.len() == 10);
    assert("VAULT_TOKEN"@.len() == 11);
    assert("VAULT_ADDR"@ != "VAULT_TOKEN"@);
    lemma_run_transform_pointwise(cfg, ctx, addr, services, tokens, 0);
    let out = run_transform(cfg, ctx, addr, services, tokens, 0);
    let k = fail_index(cfg, ctx, addr, services, tokens, 0);
    assert(k == services.len());
    assert forall|i: int| 0 <= i < services.len() implies {
        &&& #[trigger] tokens[i] is Ok
        &&& out.services[i].environment.contains_key("VAULT_ADDR"@)
        &&& out.services[i].environment["VAULT_ADDR"@] == addr
        &&& out.services[i].environment.contains_key("VAULT_TOKEN"@)
        &&& out.services[i].environment["VAULT_TOKEN"@] == tokens[i]->Ok_0
    } by {
        let st = step_of(cfg, ctx, addr, services[i], tok_at(tokens, i));
        assert(st.error is None);
        assert(tok_at(tokens, i) == tokens[i]);
        let env1 = services[i].environment.insert("VAULT_ADDR"@, addr);
        let tok = tokens[i]->Ok_0;
        let env2 = env1.insert("VAULT_TOKEN"@, tok);
        lemma_apply_extra_preserves(env2, cfg.extra_environment, ctx, services[i].name, 0, "VAULT_ADDR"@);
        lemma_apply_extra_preserves(env2, cfg.extra_environment, ctx, services[i].name, 0, "VAULT_TOKEN"@);
    }
}

/// Every token request a transform pass makes carries the display name
/// `"{project}-{override}-{pod}-{service}"` of its service, the service's
/// fully resolved policy list, and the document's time-to-live.
pub proof fn lemma_transform_calls_exact(
    cfg: ConfigV,
    ctx: ContextV,
    addr: Seq<char>,
    services: Seq<ServiceV>,
    tokens: Seq<Result<Seq<char>, PluginErrorV>>,
)
    ensures
        ({
            let out = run_transform(cfg, ctx, addr, services, tokens, 0);
            &&& out.calls.len() <= services.len()
            &&& (out.error is None ==> out.calls.len() == services.len())
            &&& forall|j: int|
                0 <= j < out.calls.len() ==> {
                    &&& (#[trigger] out.calls[j]).display_name == display_name_spec(
                        ctx,
                        services[j].name,
                    )
                    &&& out.calls[j].ttl == cfg.default_ttl
                    &&& interp_all(
                        composed_templates(cfg, ctx.pod, services[j].name),
                        ctx,
                        services[j].name,
                        0,
                    ) == Ok::<Seq<Seq<char>>, Seq<char>>(out.calls[j].policies)
                }
        }),
{
    lemma_run_transform_pointwise(cfg, ctx, addr, services, tokens, 0);
    let out = run_transform(cfg, ctx, addr, services, tokens, 0);
    let k = fail_index(cfg, ctx, addr, services, tokens, 0);
    assert forall|j: int| 0 <= j < out.calls.len() implies {
        &&& (#[trigger] out.calls[j]).display_name == display_name_spec(ctx, services[j].name)
        &&& out.calls[j].ttl == cfg.default_ttl
        &&& interp_all(
            composed_templates(cfg, ctx.pod, services[j].name),
            ctx,
            services[j].name,
            0,
        ) == Ok::<Seq<Seq<char>>, Seq<char>>(out.calls[j].policies)
    } by {
        let rng = expected_calls_range(cfg, ctx, services, 0, k);
        if j < k {
            assert(out.calls[j] == rng[j]);
            assert(out.calls[j] == service_call(cfg, ctx, services[j].name));
            let st = step_of(cfg, ctx, addr, services[j], tok_at(tokens, j));
            assert(st.error is None);
        } else {
            assert(k < services.len());
            let st = step_of(cfg, ctx, addr, services[k], tok_at(tokens, k));
            assert(st.calls.len() > 0);
            assert(out.calls[j] == st.calls[j - k]);
            assert(j == k);
            assert(st.calls[0] == service_call(cfg, ctx, services[k].name));
        }
    }
}

/// The plugin: the configuration document, loaded once, and the secret
/// backend handle injected at construction.
pub struct Plugin {
    /// The configuration document; read-only after construction.
    pub config: Config,
    /// The source of tokens.
    pub generator: TokenSource,
}

impl Plugin {
    /// The plugin's stable identifier.
    pub fn name(&self) -> (r: &'static str)
        ensures
            r@ == "vault"@,
    {
        "vault"
    }

    /// Whether the plugin should run for a project: exactly when the
    /// project has a configuration document at its conventional location.
    /// Where it should not, the plugin is never constructed and nothing
    /// is ever mutated.
    pub fn should_enable_for(config_file_present: bool) -> (r: bool)
        ensures
            r == config_file_present,
    {
        config_file_present
    }

    /// Builds the plugin around an already-loaded configuration document
    /// and a chosen source of tokens.
    pub fn new_with_generator(config: Config, generator: TokenSource) -> (r: Plugin)
        ensures
            r.config == config,
            r.generator == generator,
    {
        Plugin { config, generator }
    }

    /// The fully resolved policy list for one service: the composed
    /// templates, interpolated in order, stopping at the first unresolved
    /// reference.
    pub fn resolved_policies(&self, ctx: &Context, service: &str) -> (r: Result<
        Vec<String>,
        PluginError,
    >)
        ensures
            crate::interpolate::interp_all_result_matches(
                composed_templates(self.config@, ctx@.pod, service@),
                ctx@,
                service@,
                r,
            ),
    {
        let templates = self.config.compose_templates(ctx.pod.as_str(), service);
        let cenv = ConfigEnvironment { ctx, service };
        interpolate_all(&templates, &cenv)
    }

    /// Transforms the merged definition tree in place: for every service,
    /// in presentation order, inserts `VAULT_ADDR`, requests one token
    /// scoped to the service's resolved policy list and inserts it as
    /// `VAULT_TOKEN`, then folds the extra environment in.  The first
    /// failure aborts the pass; services already processed keep their
    /// mutations.
    #[verifier::loop_isolation(false)]
    pub fn transform(&mut self, ctx: &Context, file: &mut File) -> (r: Result<(), PluginError>)
        ensures
            final(self).config == old(self).config,
            transform_post(
                old(self).config@,
                ctx@,
                old(self).generator,
                final(self).generator,
                old(file)@,
                final(file)@,
                r,
            ),
    {
        let ghost config0 = self.config;
        let ghost cfg = self.config@;
        let ghost ctxv = ctx@;
        let ghost g0 = self.generator;
        let ghost addr_s = self.generator.addr_spec();
        let ghost services0 = file@;
        let ghost mut tokens: Seq<Result<Seq<char>, PluginErrorV>> = Seq::empty();
        let n = file.services.len();
        proof {
            assert(services0.len() == n);
        }
        let mut idx: usize = 0;
        #[verifier::loop_isolation(false)]
        while idx < n
            invariant
                file@.len() == n,
                0 <= idx <= n,
                tokens.len() == idx,
                self.config == config0,
                self.generator.addr_spec() == addr_s,
                gen_evolved(
                    g0,
                    self.generator,
                    expected_calls_range(cfg, ctxv, services0, 0, idx as int),
                    tokens,
                ),
                forall|j: int|
                    0 <= j < idx ==> step_of(cfg, ctxv, addr_s, services0[j], tokens[j]).error
                        is None,
                forall|j: int|
                    0 <= j < idx ==> file@[j] == step_of(
                        cfg,
                        ctxv,
                        addr_s,
                        services0[j],
                        tokens[j],
                    ).service,
                forall|j: int| idx <= j < n ==> file@[j] == services0[j],
            decreases n - idx,
        {
            let ghost fpre = file@;
            let mut svc = file.take_service(idx);
            let ghost env0 = svc.environment@;
            let ghost name_v = svc.name@;
            proof {
                assert(svc@ == services0[idx as int]);
            }
            let name = svc.name.clone();
            let cenv = ConfigEnvironment { ctx, service: name.as_str() };
            let addr = self.generator.addr();
            svc.environment.insert("VAULT_ADDR".to_owned(), addr);
            let ghost env1 = svc.environment@;
            proof {
                assert(env1 == env0.insert("VAULT_ADDR"@, addr_s));
            }
            let templates = self.config.compose_templates(ctx.pod.as_str(), name.as_str());
            match interpolate_all(&templates, &cenv) {
                Err(e) => {
                    let ghost entry = Ok::<Seq<char>, PluginErrorV>(mock_token());
                    let ghost st = step_of(cfg, ctxv, addr_s, services0[idx as int], entry);
                    let ghost svc_v = svc@;
                    proof {
                        assert(st.error == Some(e@));
                        assert(st.service == svc_v);
                        assert(st.calls == Seq::<CallV>::empty());
                    }
                    file.put_service(idx, svc);
                    proof {
                        assert(file@.len() == n);
                        assert(file@[idx as int] == svc_v);
                        assert forall|j: int| 0 <= j < n && j != idx as int implies file@[j]
                            == fpre[j] by {}
                        assert(expected_calls_range(cfg, ctxv, services0, 0, idx as int) + st.calls
                            =~= expected_calls_range(cfg, ctxv, services0, 0, idx as int));
                        assert(gen_evolved(
                            g0,
                            self.generator,
                            expected_calls_range(cfg, ctxv, services0, 0, idx as int) + st.calls,
                            tokens.push(entry),
                        ));
                        lemma_conclude_error(
                            cfg,
                            ctxv,
                            g0,
                            self.generator,
                            services0,
                            file@,
                            tokens,
                            entry,
                            idx as int,
                            e,
                        );
                    }
                    return Err(e);
                },
                Ok(policies) => {
                    let ghost pol_v = policies.deep_view();
                    let display = display_name(ctx, name.as_str());
                    let ttl = self.config.default_ttl;
                    let ghost gen_pre = self.generator;
                    let token_res = self.generator.generate_token(display.as_str(), policies, ttl);
                    let ghost tres = token_res;
                    proof {
                        assert(generate_post(
                            gen_pre,
                            self.generator,
                            display@,
                            pol_v,
                            ttl,
                            tres,
                        ));
                        assert(self.generator.addr_spec() == addr_s);
                        assert(service_call(cfg, ctxv, name_v) == (CallV {
                            display_name: display@,
                            policies: pol_v,
                            ttl,
                        }));
                    }
                    match token_res {
                        Err(e) => {
                            let ghost entry = Err::<Seq<char>, PluginErrorV>(e@);
                            let ghost st = step_of(cfg, ctxv, addr_s, services0[idx as int], entry);
                            let ghost svc_v = svc@;
                            proof {
                                assert(st.error == Some(e@));
                                assert(st.service == svc_v);
                                assert(st.calls =~= seq![service_call(cfg, ctxv, name_v)]);
                                lemma_gen_step(
                                    g0,
                                    gen_pre,
                                    self.generator,
                                    expected_calls_range(cfg, ctxv, services0, 0, idx as int),
                                    service_call(cfg, ctxv, name_v),
                                    tokens,
                                    display@,
                                    pol_v,
                                    ttl,
                                    tres,
                                    entry,
                                );
                            }
                            file.put_service(idx, svc);
                            proof {
                                assert(file@.len() == n);
                                assert(file@[idx as int] == svc_v);
                                assert forall|j: int| 0 <= j < n && j != idx as int implies file@[j]
                                    == fpre[j] by {}
                                assert(gen_evolved(
                                    g0,
                                    self.generator,
                                    expected_calls_range(cfg, ctxv, services0, 0, idx as int)
                                        + st.calls,
                                    tokens.push(entry),
                                ));
                                lemma_conclude_error(
                                    cfg,
                                    ctxv,
                                    g0,
                                    self.generator,
                                    services0,
                                    file@,
                                    tokens,
                                    entry,
                                    idx as int,
                                    e,
                                );
                            }
                            return Err(e);
                        },
                        Ok(token) => {
                            let ghost tok_v = token@;
                            let ghost entry = Ok::<Seq<char>, PluginErrorV>(tok_v);
                            proof {
                                lemma_gen_step(
                                    g0,
                                    gen_pre,
                                    self.generator,
                                    expected_calls_range(cfg, ctxv, services0, 0, idx as int),
                                    service_call(cfg, ctxv, name_v),
                                    tokens,
                                    display@,
                                    pol_v,
                                    ttl,
                                    tres,
                                    entry,
                                );
                            }
                            svc.environment.insert("VAULT_TOKEN".to_owned(), token);
                            let ghost env2 = svc.environment@;
                            proof {
                                assert(env2 == env1.insert("VAULT_TOKEN"@, tok_v));
                            }
                            let extra_len = self.config.extra_environment.len();
                            let mut m: usize = 0;
                            #[verifier::loop_isolation(false)]
                            while m < extra_len
                                invariant
                                    0 <= m <= extra_len,
                                    idx < n,
                                    file@.len() == n - 1,
                                    forall|j: int|
                                        0 <= j < idx ==> file@[j] == step_of(
                                            cfg,
                                            ctxv,
                                            addr_s,
                                            services0[j],
                                            tokens[j],
                                        ).service,
                                    forall|j: int|
                                        idx <= j < n - 1 ==> file@[j] == services0[j + 1],
                                    svc.name@ == name_v,
                                    apply_extra(env2, cfg.extra_environment, ctxv, name_v, 0)
                                        == apply_extra(
                                        svc.environment@,
                                        cfg.extra_environment,
                                        ctxv,
                                        name_v,
                                        m as int,
                                    ),
                                decreases extra_len - m,
                            {
                                proof {
                                    assert(cfg.extra_environment[m as int] == (
                                        self.config.extra_environment@[m as int].0@,
                                        self.config.extra_environment@[m as int].1@,
                                    ));
                                }
                                let entry_key = self.config.extra_environment[m].0.clone();
                                match interpolate(
                                    self.config.extra_environment[m].1.as_str(),
                                    &cenv,
                                ) {
                                    Ok(v) => {
                                        let ghost env_before = svc.environment@;
                                        svc.environment.insert(entry_key, v);
                                        proof {
                                            assert(svc.environment@ == env_before.insert(
                                                cfg.extra_environment[m as int].0,
                                                v@,
                                            ));
                                        }
                                        m = m + 1;
                                    },
                                    Err(e) => {
                                        let ghost st = step_of(
                                            cfg,
                                            ctxv,
                                            addr_s,
                                            services0[idx as int],
                                            entry,
                                        );
                                        let ghost svc_v = svc@;
                                        proof {
                                            let nm = e@->UndefinedVariable_0;
                                            assert(apply_extra(
                                                env2,
                                                cfg.extra_environment,
                                                ctxv,
                                                name_v,
                                                0,
                                            ) == (svc.environment@, Some(nm)));
                                            assert(st.error == Some(e@));
                                            assert(st.service == svc_v);
                                            assert(st.calls =~= seq![
                                                service_call(cfg, ctxv, name_v),
                                            ]);
                                        }
                                        file.put_service(idx, svc);
                                        proof {
                                            assert(file@.len() == n);
                                            assert(file@[idx as int] == svc_v);
                                            assert forall|j: int|
                                                0 <= j < n && j != idx as int implies file@[j]
                                                == fpre[j] by {}
                                            assert(gen_evolved(
                                                g0,
                                                self.generator,
                                                expected_calls_range(
                                                    cfg,
                                                    ctxv,
                                                    services0,
                                                    0,
                                                    idx as int,
                                                ) + st.calls,
                                                tokens.push(entry),
                                            ));
                                            lemma_conclude_error(
                                                cfg,
                                                ctxv,
                                                g0,
                                                self.generator,
                                                services0,
                                                file@,
                                                tokens,
                                                entry,
                                                idx as int,
                                                e,
                                            );
                                        }
                                        return Err(e);
                                    },
                                }
                            }
                            let ghost st = step_of(cfg, ctxv, addr_s, services0[idx as int], entry);
                            let ghost svc_v = svc@;
                            proof {
                                assert(apply_extra(env2, cfg.extra_environment, ctxv, name_v, 0)
                                    == (svc.environment@, None::<Seq<char>>));
                                assert(st.error is None);
                                assert(st.service == svc_v);
                                assert(st.calls =~= seq![service_call(cfg, ctxv, name_v)]);
                            }
                            file.put_service(idx, svc);
                            proof {
                                tokens = tokens.push(entry);
                                assert(file@.len() == n);
                                assert(file@[idx as int] == svc_v);
                                assert forall|j: int| 0 <= j < n && j != idx as int implies file@[j]
                                    == fpre[j] by {}
                                assert(expected_calls_range(cfg, ctxv, services0, 0, idx as int)
                                    + st.calls =~= expected_calls_range(
                                    cfg,
                                    ctxv,
                                    services0,
                                    0,
                                    idx as int + 1,
                                ));
                                assert(gen_evolved(
                                    g0,
                                    self.generator,
                                    expected_calls_range(cfg, ctxv, services0, 0, idx as int + 1),
                                    tokens,
                                ));
                            }
                            idx = idx + 1;
                        },
                    }
                },
            }
        }
        proof {
            lemma_conclude_ok(cfg, ctxv, g0, self.generator, services0, file@, tokens);
        }
        Ok(())
    }
}

} // verus!
