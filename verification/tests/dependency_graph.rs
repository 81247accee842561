use ymir::stage::{PipelineDirtyState, Stage};

#[test]
fn fresh_state_all_dirty() {
    let state = PipelineDirtyState::new();
    for stage in Stage::all() {
        assert!(state.is_dirty(stage), "{:?} should be dirty", stage);
    }
    assert_eq!(state.dirty_stages().len(), 7);
}

#[test]
fn clean_state_none_dirty() {
    let state = PipelineDirtyState::clean();
    for stage in Stage::all() {
        assert!(!state.is_dirty(stage), "{:?} should be clean", stage);
    }
    assert_eq!(state.dirty_stages().len(), 0);
    assert_eq!(state.next_dirty(), None);
}

#[test]
fn override_at_atmosphere_marks_3_through_7() {
    let mut state = PipelineDirtyState::clean();
    state.mark_override_at(Stage::Atmosphere);

    assert!(!state.is_dirty(Stage::StellarContext));
    assert!(!state.is_dirty(Stage::PlanetarySystem));
    assert!(state.is_dirty(Stage::Atmosphere));
    assert!(state.is_dirty(Stage::Skeleton));
    assert!(state.is_dirty(Stage::Climate));
    assert!(state.is_dirty(Stage::Biome));
    assert!(state.is_dirty(Stage::RegionalDetail));

    assert_eq!(state.dirty_stages().len(), 5);
}

#[test]
fn override_at_stage_1_all_dirty() {
    let mut state = PipelineDirtyState::clean();
    state.mark_override_at(Stage::StellarContext);

    for stage in Stage::all() {
        assert!(state.is_dirty(stage), "{:?} should be dirty", stage);
    }
}

#[test]
fn override_at_stage_7_only_regional_detail() {
    let mut state = PipelineDirtyState::clean();
    state.mark_override_at(Stage::RegionalDetail);

    for stage in &Stage::all()[..6] {
        assert!(!state.is_dirty(*stage), "{:?} should be clean", stage);
    }
    assert!(state.is_dirty(Stage::RegionalDetail));
}

#[test]
fn mark_clean_single_stage() {
    let mut state = PipelineDirtyState::clean();
    state.mark_override_at(Stage::Atmosphere);
    state.mark_clean(Stage::Atmosphere);

    assert!(!state.is_dirty(Stage::Atmosphere));
    assert!(state.is_dirty(Stage::Skeleton));
    assert!(state.is_dirty(Stage::Climate));
    assert!(state.is_dirty(Stage::Biome));
    assert!(state.is_dirty(Stage::RegionalDetail));
}

#[test]
fn next_dirty_returns_lowest_index() {
    let mut state = PipelineDirtyState::clean();
    state.mark_override_at(Stage::Climate);
    assert_eq!(state.next_dirty(), Some(Stage::Climate));

    state.mark_clean(Stage::Climate);
    assert_eq!(state.next_dirty(), Some(Stage::Biome));
}

#[test]
fn multiple_overrides() {
    let mut state = PipelineDirtyState::clean();
    state.mark_override_at(Stage::Atmosphere);
    state.mark_override_at(Stage::Climate);

    // Stages 3-7 stay dirty: the override at 3 already covered 5-7.
    assert!(!state.is_dirty(Stage::StellarContext));
    assert!(!state.is_dirty(Stage::PlanetarySystem));
    assert!(state.is_dirty(Stage::Atmosphere));
    assert!(state.is_dirty(Stage::Skeleton));
    assert!(state.is_dirty(Stage::Climate));
    assert!(state.is_dirty(Stage::Biome));
    assert!(state.is_dirty(Stage::RegionalDetail));
}

#[test]
fn stage_names() {
    assert_eq!(Stage::StellarContext.name(), "Stellar Context");
    assert_eq!(Stage::RegionalDetail.name(), "Regional Detail");
}

#[test]
fn stage_indices() {
    assert_eq!(Stage::StellarContext.index(), 1);
    assert_eq!(Stage::RegionalDetail.index(), 7);
}

#[test]
fn downstream_of_middle_stage() {
    let downstream = Stage::downstream_of(Stage::Skeleton);
    assert_eq!(
        downstream,
        vec![
            Stage::Skeleton,
            Stage::Climate,
            Stage::Biome,
            Stage::RegionalDetail
        ]
    );
}

#[test]
fn dirty_stages_ordered() {
    let mut state = PipelineDirtyState::clean();
    state.mark_override_at(Stage::Climate);
    let dirty = state.dirty_stages();
    assert_eq!(
        dirty,
        vec![Stage::Climate, Stage::Biome, Stage::RegionalDetail]
    );
}

// Laws on concrete values.

#[test]
fn later_override_is_absorbed_by_earlier_one() {
    let mut a = PipelineDirtyState::clean();
    a.mark_override_at(Stage::Atmosphere);
    let mut b = PipelineDirtyState::clean();
    b.mark_override_at(Stage::Atmosphere);
    b.mark_override_at(Stage::Biome);
    assert_eq!(a.dirty_stages(), b.dirty_stages());
}

#[test]
fn overrides_commute() {
    let mut a = PipelineDirtyState::clean();
    a.mark_override_at(Stage::Skeleton);
    a.mark_override_at(Stage::PlanetarySystem);
    let mut b = PipelineDirtyState::clean();
    b.mark_override_at(Stage::PlanetarySystem);
    b.mark_override_at(Stage::Skeleton);
    assert_eq!(a.dirty_stages(), b.dirty_stages());
}

#[test]
fn next_dirty_after_override_is_the_overridden_stage() {
    let mut state = PipelineDirtyState::clean();
    state.mark_override_at(Stage::RegionalDetail);
    state.mark_override_at(Stage::Skeleton);
    assert_eq!(state.next_dirty(), Some(Stage::Skeleton));
}

#[test]
fn default_state_is_fully_dirty() {
    let state = PipelineDirtyState::default();
    assert_eq!(state.dirty_stages(), Stage::all());
}
