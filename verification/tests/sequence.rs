use openvoxel::sequence::{advance_sequence_state, RivuletError, RivuletState, Rivulets, Sequences};

#[derive(Clone, Debug, PartialEq)]
enum Loading {
    Idle,
    Assets,
    World,
}

impl Sequences for Loading {
    fn active(&self) -> bool {
        self.is_active()
    }

    fn successor(&self) -> Option<Self> {
        self.next()
    }

    fn is_active(&self) -> bool {
        *self != Loading::Idle
    }

    fn first() -> Self {
        Loading::Assets
    }

    fn next(&self) -> Option<Self> {
        match self {
            Loading::Idle => None,
            Loading::Assets => Some(Loading::World),
            Loading::World => None,
        }
    }
}

fn error() -> RivuletError {
    RivuletError { err_code: "E1".to_string(), err_text: "broken".to_string() }
}

#[test]
fn inactive_sequence_does_nothing() {
    let step = advance_sequence_state(&Loading::Idle, &Loading::Idle, Some(error()), true);
    assert!(step.failed.is_none());
    assert!(step.next.is_none());
    assert!(!step.ended && !step.cleared);
}

#[test]
fn running_stage_waits() {
    let step = advance_sequence_state(&Loading::first(), &Loading::Idle, None, false);
    assert!(step.next.is_none());
    assert!(!step.ended && !step.cleared);
}

#[test]
fn finished_stage_moves_on_then_ends() {
    let step = advance_sequence_state(&Loading::Assets, &Loading::Idle, None, true);
    assert_eq!(step.next, Some(Loading::World));
    assert!(step.cleared && !step.ended);
    let step = advance_sequence_state(&Loading::World, &Loading::Idle, None, true);
    assert_eq!(step.next, Some(Loading::Idle));
    assert!(step.cleared && step.ended);
}

#[test]
fn error_returns_to_rest() {
    let step = advance_sequence_state(&Loading::Assets, &Loading::Idle, Some(error()), false);
    let failed = step.failed.unwrap();
    assert_eq!(failed.stage, Loading::Assets);
    assert_eq!(failed.error.err_code, "E1");
    assert_eq!(step.next, Some(Loading::Idle));
    assert!(!step.ended);
}

#[test]
fn rivulets_track_units_of_work() {
    let mut r = Rivulets::new();
    assert!(r.is_empty_or_all_finished());
    assert!(!r.all_finished(&["load"]));
    assert_eq!(r.get("load"), (0, RivuletState::Uninit));
    assert_eq!(r.get_in_progress("mesh"), Some(0));
    r.store("mesh", 0.5f32.to_bits(), RivuletState::InProgress);
    assert_eq!(r.get("mesh"), (0.5f32.to_bits(), RivuletState::InProgress));
    r.store("load", 1.0f32.to_bits(), RivuletState::Finished);
    assert!(r.all_finished(&["load"]));
    assert!(!r.all_finished(&["load", "mesh"]));
    assert!(!r.is_empty_or_all_finished());
    assert_eq!(r.get_in_progress("load"), None);
    r.set_hint_text("mesh", "meshing".to_string());
    r.store("mesh", 1.0f32.to_bits(), RivuletState::Finished);
    assert!(r.is_empty_or_all_finished());
    assert_eq!(r.states().len(), 2);
    r.store("absent", 7, RivuletState::Finished);
    assert_eq!(r.states().len(), 2);
    r.clear();
    assert!(r.states().is_empty());
}
