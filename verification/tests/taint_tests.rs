use browser_engine::taint::{check_flow, check_mix, Taint};

#[test]
fn test_clean_flows_anywhere() {
    assert!(Taint::Clean.can_flow_to(Taint::Secret));
    assert!(Taint::Clean.can_flow_to(Taint::Page));
}

#[test]
fn test_secret_does_not_flow_to_page() {
    assert!(!Taint::Secret.can_flow_to(Taint::Page));
    assert!(!Taint::Page.can_flow_to(Taint::Secret));
}

#[test]
fn test_page_does_not_become_ai_instructions() {
    assert!(!Taint::Page.can_flow_to(Taint::Ai));
}

#[test]
fn test_user_does_not_escalate_to_secret() {
    assert!(!Taint::User.can_flow_to(Taint::Secret));
}

#[test]
fn test_secret_mix_only_with_clean_or_secret() {
    assert!(Taint::Secret.can_mix_with(Taint::Clean));
    assert!(Taint::Secret.can_mix_with(Taint::Secret));
    assert!(!Taint::Secret.can_mix_with(Taint::Page));
    assert!(!Taint::Secret.can_mix_with(Taint::User));
}

#[test]
fn test_check_flow() {
    assert!(check_flow(Taint::Secret, Taint::Clean).is_ok());
    assert!(check_flow(Taint::Secret, Taint::Page).is_err());
}

#[test]
fn mix_is_symmetric_on_all_pairs() {
    let all = [Taint::Clean, Taint::User, Taint::Page, Taint::Ai, Taint::Secret];
    for a in all {
        for b in all {
            assert_eq!(a.can_mix_with(b), b.can_mix_with(a));
            assert_eq!(check_mix(a, b).is_ok(), a.can_mix_with(b));
        }
    }
}

#[test]
fn propagate_takes_the_stronger_label() {
    assert_eq!(Taint::Clean.propagate(Some(Taint::Secret)), Taint::Secret);
    assert_eq!(Taint::Secret.propagate(Some(Taint::Clean)), Taint::Secret);
    assert_eq!(Taint::Page.propagate(None), Taint::Page);
    assert_eq!(Taint::User.propagate(Some(Taint::User)), Taint::User);
}
