use browser_engine::capability::{check_capability, Capability, PrivacyLevel};

#[test]
fn test_off_no_capabilities() {
    assert!(PrivacyLevel::Off.capabilities().is_empty());
}

#[test]
fn test_low_read_only() {
    assert!(PrivacyLevel::Low.has(Capability::DomRead));
    assert!(PrivacyLevel::Low.has(Capability::AiRead));
    assert!(!PrivacyLevel::Low.has(Capability::DomWrite));
    assert!(!PrivacyLevel::Low.has(Capability::AiActions));
}

#[test]
fn test_medium_safe_actions() {
    assert!(PrivacyLevel::Medium.has(Capability::DomActionClick));
    assert!(PrivacyLevel::Medium.has(Capability::AiActions));
    assert!(!PrivacyLevel::Medium.has(Capability::DomActionSubmit));
    assert!(!PrivacyLevel::Medium.has(Capability::CodeDynamic));
}

#[test]
fn test_high_navigation() {
    assert!(PrivacyLevel::High.has(Capability::NavigationNavigate));
    assert!(PrivacyLevel::High.has(Capability::DomActionSubmit));
    assert!(!PrivacyLevel::High.has(Capability::CodeDynamic));
}

#[test]
fn test_full_everything() {
    assert!(PrivacyLevel::Full.has(Capability::CodeDynamic));
    assert!(PrivacyLevel::Full.has(Capability::MediaCapture));
}

#[test]
fn test_check_capability() {
    let granted = PrivacyLevel::Medium.capabilities();
    assert!(check_capability(&granted, Capability::DomRead).is_ok());
    assert!(check_capability(&granted, Capability::CodeDynamic).is_err());
}

#[test]
fn levels_only_grow() {
    let levels = [PrivacyLevel::Off, PrivacyLevel::Low, PrivacyLevel::Medium, PrivacyLevel::High, PrivacyLevel::Full];
    for w in levels.windows(2) {
        for c in w[0].capabilities() {
            assert!(w[1].has(c));
        }
    }
    assert_eq!(PrivacyLevel::Full.capabilities().len(), 19);
}

#[test]
fn capability_names_match_variants() {
    assert_eq!(Capability::DomActionClick.name(), "DomActionClick");
    assert_eq!(Capability::AiRead.name(), "AiRead");
}
