use cirrus::thumb::handler::SecurityState;
use cirrus::thumb::snapshot::{merge_agreement, select_wire, ThumbAgreement, ThumbMergeError};

fn state() -> ThumbAgreement<2> {
    ThumbAgreement {
        sp: 64,
        rstack_depth: 1,
        rstack: [4, 0],
        itstate: 0,
        security_state: SecurityState::Secure,
    }
}

#[test]
fn active_wire_selection_is_predicated() {
    assert_eq!(select_wire(&mut (), false, true, false), Ok(false));
    assert_eq!(select_wire(&mut (), true, true, false), Ok(true));
}

#[test]
fn equal_concrete_state_merges() {
    let mut agreement = None;
    assert_eq!(merge_agreement(&mut agreement, state()), Ok(()));
    assert_eq!(merge_agreement(&mut agreement, state()), Ok(()));
}

#[test]
fn trustzone_or_itstate_divergence_fails_closed() {
    let mut agreement = Some(state());
    let mut non_secure = state();
    non_secure.security_state = SecurityState::NonSecure;
    assert_eq!(
        merge_agreement(&mut agreement, non_secure),
        Err(ThumbMergeError::ConcreteStateDivergence)
    );
    let mut it = state();
    it.itstate = 0x18;
    assert_eq!(
        merge_agreement(&mut agreement, it),
        Err(ThumbMergeError::ConcreteStateDivergence)
    );
}
