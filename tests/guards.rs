use makepad_router::{
    live_id, GuardPipeline, HookAnswer, HookPhase, Route, Router, RouterBlockReason,
    RouterCapabilities, RouterDispatchResult, RouterNavContext, RouterNavKind, RouterNavRequest,
    RouterRedirect, RouterRedirectTarget, RouterStep,
};

#[test]
fn default_capabilities_are_opt_in() {
    let caps = RouterCapabilities::default();
    assert!(!caps.guards_sync);
    assert!(!caps.guards_async);
    assert!(!caps.transitions);
    assert!(!caps.nested);
    assert!(!caps.persistence);
}

#[test]
fn blocked_result_marks_failure() {
    let result = RouterDispatchResult::blocked(None, None, RouterBlockReason::NoHistory);
    assert!(!result.changed);
    assert_eq!(result.blocked_reason, Some(RouterBlockReason::NoHistory));
}

fn all_caps() -> RouterCapabilities {
    RouterCapabilities { guards_sync: true, guards_async: true, transitions: false, nested: false, persistence: false }
}

fn pipeline(ids: &[u64]) -> GuardPipeline {
    let mut router = Router::new(Route::new(ids[0]));
    for &id in ids {
        router.route_registry.register_by_id(id);
    }
    GuardPipeline::new(router, all_caps())
}

fn drive(
    p: &mut GuardPipeline,
    mut step: RouterStep,
    decide: &mut dyn FnMut(HookPhase, usize, &RouterNavContext) -> HookAnswer,
) -> RouterStep {
    loop {
        match step {
            RouterStep::Ask { phase, index } => {
                let answer = decide(phase, index, p.context().unwrap());
                step = p.answer(answer);
            }
            other => return other,
        }
    }
}

#[test]
fn no_hooks_commits_directly() {
    let mut p = pipeline(&[1, 2]);
    let step = p.request(RouterNavRequest::Navigate { route_id: 2 });
    assert!(matches!(step, RouterStep::Committed(ref r) if r.changed && r.to.as_ref().unwrap().id == 2));
    assert_eq!(p.router.current_route_id(), Some(2));
    assert!(!p.is_busy());
}

#[test]
fn unknown_route_and_missing_history_are_refused() {
    let mut p = pipeline(&[1]);
    assert!(matches!(p.request(RouterNavRequest::Navigate { route_id: 9 }), RouterStep::Blocked(RouterBlockReason::RouteMissing)));
    assert!(matches!(p.request(RouterNavRequest::Back), RouterStep::Blocked(RouterBlockReason::NoHistory)));
    assert!(matches!(p.request(RouterNavRequest::Pop), RouterStep::Blocked(RouterBlockReason::NoHistory)));
    assert_eq!(p.last_blocked_reason, Some(RouterBlockReason::NoHistory));
}

#[test]
fn hooks_run_in_order_and_block() {
    let mut p = pipeline(&[1, 2]);
    p.add_before_leave_hook().unwrap();
    p.add_route_guard().unwrap();
    p.add_route_guard().unwrap();
    let mut asked = Vec::new();
    let step = p.request(RouterNavRequest::Navigate { route_id: 2 });
    let out = drive(&mut p, step, &mut |phase, index, ctx| {
        assert_eq!(ctx.kind, RouterNavKind::Navigate);
        assert_eq!(ctx.from.as_ref().unwrap().id, 1);
        assert_eq!(ctx.to.as_ref().unwrap().id, 2);
        asked.push((phase, index));
        if phase == HookPhase::GuardSync && index == 1 { HookAnswer::Block } else { HookAnswer::Allow }
    });
    assert_eq!(asked, vec![(HookPhase::BeforeLeaveSync, 0), (HookPhase::GuardSync, 0), (HookPhase::GuardSync, 1)]);
    assert!(matches!(out, RouterStep::Blocked(RouterBlockReason::GuardBlocked)));
    assert_eq!(p.router.current_route_id(), Some(1));
}

#[test]
fn before_leave_block_and_staying_skips_it() {
    let mut p = pipeline(&[1, 2]);
    p.add_before_leave_hook().unwrap();
    let step = p.request(RouterNavRequest::Navigate { route_id: 2 });
    let out = drive(&mut p, step, &mut |_, _, _| HookAnswer::Block);
    assert!(matches!(out, RouterStep::Blocked(RouterBlockReason::BeforeLeaveBlocked)));
    let step = p.request(RouterNavRequest::Replace { route_id: 1 });
    assert!(matches!(step, RouterStep::Committed(_)));
}

#[test]
fn capability_disabled_refuses_hooks() {
    let mut router = Router::new(Route::new(1));
    router.route_registry.register_by_id(1);
    let mut p = GuardPipeline::new(router, RouterCapabilities::default());
    assert_eq!(p.add_route_guard(), Err(RouterBlockReason::CapabilityDisabled));
    assert_eq!(p.add_before_leave_hook_async(), Err(RouterBlockReason::CapabilityDisabled));
    assert_eq!(p.last_blocked_reason, Some(RouterBlockReason::CapabilityDisabled));
}

#[test]
fn async_guard_suspends_and_resumes() {
    let mut p = pipeline(&[1, 2]);
    p.add_route_guard_async().unwrap();
    p.add_route_guard_async().unwrap();
    let step = p.request(RouterNavRequest::Navigate { route_id: 2 });
    assert!(matches!(step, RouterStep::Ask { phase: HookPhase::GuardAsync, index: 0 }));
    assert!(matches!(p.answer(HookAnswer::Pending), RouterStep::Suspended));
    assert!(matches!(p.request(RouterNavRequest::Back), RouterStep::Blocked(RouterBlockReason::NoHistory)));
    assert!(matches!(p.answer(HookAnswer::Pending), RouterStep::Suspended));
    assert!(matches!(p.answer(HookAnswer::Allow), RouterStep::Ask { phase: HookPhase::GuardAsync, index: 1 }));
    assert!(matches!(p.answer(HookAnswer::Allow), RouterStep::Committed(_)));
    assert_eq!(p.router.current_route_id(), Some(2));
    assert!(!p.is_busy());
}

#[test]
fn redirect_goes_to_new_target() {
    let mut p = pipeline(&[1, 2, 3]);
    p.add_route_guard().unwrap();
    let step = p.request(RouterNavRequest::Navigate { route_id: 2 });
    let out = drive(&mut p, step, &mut |_, _, ctx| {
        if ctx.to.as_ref().unwrap().id == 2 {
            HookAnswer::Redirect(RouterRedirect { target: RouterRedirectTarget::Route(3), replace: false })
        } else {
            HookAnswer::Allow
        }
    });
    assert!(matches!(out, RouterStep::Committed(_)));
    assert_eq!(p.router.current_route_id(), Some(3));
    assert_eq!(p.router.depth(), 2);
}

#[test]
fn endless_redirects_stop_after_eight_hops() {
    let mut p = pipeline(&[1, 2, 3]);
    p.add_route_guard().unwrap();
    let mut redirects = 0;
    let step = p.request(RouterNavRequest::Navigate { route_id: 2 });
    let out = drive(&mut p, step, &mut |_, _, ctx| {
        redirects += 1;
        let next = if ctx.to.as_ref().unwrap().id == 2 { 3 } else { 2 };
        HookAnswer::Redirect(RouterRedirect { target: RouterRedirectTarget::Route(next), replace: false })
    });
    assert!(matches!(out, RouterStep::Blocked(RouterBlockReason::RedirectLimit)));
    assert_eq!(redirects - 1, 8);
    assert_eq!(p.last_blocked_reason, Some(RouterBlockReason::RedirectLimit));
    assert_eq!(p.router.current_route_id(), Some(1));
    assert!(!p.is_busy());
}

#[test]
fn stack_requests_through_pipeline() {
    let mut p = pipeline(&[1, 2, 3]);
    p.add_route_guard().unwrap();
    let allow = &mut |_: HookPhase, _: usize, _: &RouterNavContext| HookAnswer::Allow;
    let step = p.request(RouterNavRequest::SetStack { stack: vec![Route::new(1), Route::new(9), Route::new(2), Route::new(3)] });
    assert!(matches!(drive(&mut p, step, allow), RouterStep::Committed(_)));
    assert_eq!(p.router.depth(), 3);
    let step = p.request(RouterNavRequest::PopTo { route_id: 2 });
    assert!(matches!(drive(&mut p, step, allow), RouterStep::Committed(_)));
    assert_eq!(p.router.current_route_id(), Some(2));
    let step = p.request(RouterNavRequest::PopToRoot);
    assert!(matches!(drive(&mut p, step, allow), RouterStep::Committed(_)));
    assert_eq!(p.router.depth(), 1);
    p.router.register_route_pattern("/user/:id", live_id("user")).unwrap();
    let step = p.request(RouterNavRequest::NavigateByPath { path: "/user/5".to_string() });
    let out = drive(&mut p, step, &mut |_, _, ctx| {
        assert_eq!(ctx.to_path.as_deref(), Some("/user/5"));
        HookAnswer::Allow
    });
    assert!(matches!(out, RouterStep::Committed(_)));
    assert_eq!(p.router.current_route().unwrap().get_param_string(live_id("id")).unwrap(), "5");
    p.cancel();
}

#[test]
fn path_request_keeps_query_and_hash() {
    let mut p = pipeline(&[1]);
    p.router.register_route_pattern("/user/:id", live_id("user")).unwrap();
    let step = p.request(RouterNavRequest::NavigateByPath { path: "/user/7?tab=posts#top".to_string() });
    assert!(matches!(step, RouterStep::Committed(_)));
    let route = p.router.current_route().unwrap();
    assert_eq!(route.id, live_id("user"));
    assert_eq!(route.get_param_string(live_id("id")).unwrap(), "7");
    assert_eq!(route.query_get("tab").map(|s| s.as_str()), Some("posts"));
    assert_eq!(route.hash, "#top");
}

#[test]
fn commands_map_to_requests() {
    let config = makepad_router::RouterConfig::default();
    assert!(!config.persist_state);
    assert_eq!(config.default_route, 0);
    assert!(!config.capabilities.guards_sync);
    let mut p = pipeline(&[1, 2]);
    let step = p.dispatch(makepad_router::RouterCommand::Push { route_id: 2 });
    assert!(matches!(step, RouterStep::Committed(ref r) if r.from.as_ref().unwrap().id == 1));
    let step = p.dispatch(makepad_router::RouterCommand::Back);
    assert!(matches!(step, RouterStep::Committed(_)));
    assert_eq!(p.router.current_route_id(), Some(1));
    let step = p.dispatch(makepad_router::RouterCommand::GoToRoute { route_id: 7 });
    assert!(matches!(step, RouterStep::Blocked(RouterBlockReason::RouteMissing)));
}
