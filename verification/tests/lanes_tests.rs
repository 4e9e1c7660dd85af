use browser_engine::lanes::{check_lane_mix, check_lane_taint, Lane, LaneError};
use browser_engine::taint::Taint;

#[test]
fn test_secret_lane_only_secret() {
    assert!(Lane::PrivateSecret.allows_taint(Taint::Secret));
    assert!(!Lane::PrivateSecret.allows_taint(Taint::Page));
    assert!(!Lane::PrivateSecret.allows_taint(Taint::Clean));
}

#[test]
fn test_secret_never_mixes() {
    assert!(!Lane::PrivateSecret.can_mix_with(&Lane::PublicStatic));
    assert!(!Lane::PrivateSecret.can_mix_with(&Lane::AttackerControlled));
    assert!(Lane::PrivateSecret.can_mix_with(&Lane::PrivateSecret));
}

#[test]
fn test_attacker_controlled_isolation() {
    assert!(Lane::AttackerControlled.can_mix_with(&Lane::AttackerControlled));
    assert!(!Lane::AttackerControlled.can_mix_with(&Lane::PrivateSecret));
    assert!(!Lane::AttackerControlled.can_mix_with(&Lane::PublicStatic));
}

#[test]
fn test_lane_for_taint() {
    assert_eq!(Lane::for_taint(Taint::Secret), Lane::PrivateSecret);
    assert_eq!(Lane::for_taint(Taint::Page), Lane::AttackerControlled);
    assert_eq!(Lane::for_taint(Taint::Clean), Lane::PublicStatic);
}

#[test]
fn lane_errors_name_the_offenders() {
    assert_eq!(
        check_lane_taint(Lane::PublicStatic, Taint::Page),
        Err(LaneError::TaintViolation { lane: Lane::PublicStatic, taint: Taint::Page })
    );
    assert_eq!(
        check_lane_mix(Lane::PrivateSecret, Lane::BulkBlob),
        Err(LaneError::MixViolation { a: Lane::PrivateSecret, b: Lane::BulkBlob })
    );
    assert_eq!(check_lane_mix(Lane::BulkBlob, Lane::BulkBlob), Ok(()));
    assert_eq!(Lane::BulkBlob.allowed_taints(), vec![Taint::Clean, Taint::User, Taint::Page]);
}

#[test]
fn every_label_but_ai_fits_its_own_lane() {
    for t in [Taint::Clean, Taint::User, Taint::Page, Taint::Secret] {
        assert!(Lane::for_taint(t).allows_taint(t));
    }
    assert!(!Lane::for_taint(Taint::Ai).allows_taint(Taint::Ai));
}
