use ymir::gui::{clamp_cursor, move_cursor};
use std::path::PathBuf;
use ymir::gui::{
    all_classes_enabled, class_index, class_passes, display_name, single_enabled_class,
    spectral_label, text_matches, AppState, InspectorPanel, InspectorTab, LoadedWorld,
    PanelRegion, RenderMode, ViewMode, WorldLoadError, YmirApp,
};
use ymir::spectral::{IndexedSpectralType, SpectralClass};

const ALL_CLASSES: &[SpectralClass] = &[
    SpectralClass::O,
    SpectralClass::B,
    SpectralClass::A,
    SpectralClass::F,
    SpectralClass::G,
    SpectralClass::K,
    SpectralClass::M,
];

#[test]
fn default_state_starts_in_empty_view() {
    let state = AppState::default();
    assert_eq!(state.view_mode, ViewMode::Empty);
    assert_eq!(state.render_mode, RenderMode::Elevation);
    assert!(!state.confidence_overlay);
    assert!(state.last_world_path.is_none());
}

#[test]
fn default_app_has_no_world_and_fields_tab() {
    let app = YmirApp::default();
    assert!(app.world.is_none());
    assert_eq!(app.inspector.current_tab(), InspectorTab::Fields);
    assert_eq!(app.state.view_mode, ViewMode::Empty);
}

#[test]
fn inspector_defaults_to_fields_tab() {
    let panel = InspectorPanel::new();
    assert_eq!(panel.current_tab(), InspectorTab::Fields);
}

#[test]
fn set_tab_updates_current() {
    let mut panel = InspectorPanel::new();
    panel.set_tab(InspectorTab::Provenance);
    assert_eq!(panel.current_tab(), InspectorTab::Provenance);
}

#[test]
fn all_tabs_have_labels() {
    for tab in InspectorTab::all() {
        assert!(!tab.label().is_empty());
    }
}

#[test]
fn inspector_panel_region_and_title() {
    let panel = InspectorPanel::default();
    assert_eq!(panel.region(), PanelRegion::Inspector);
    assert_eq!(panel.title(), "Inspector");
    assert_eq!(InspectorTab::default(), InspectorTab::Fields);
    assert_eq!(
        InspectorTab::all(),
        vec![InspectorTab::Fields, InspectorTab::Provenance, InspectorTab::Override]
    );
}

#[test]
fn panel_region_is_copy() {
    fn takes_copy<T: Copy>(_: T) {}
    takes_copy(PanelRegion::LeftSidebar);
}

#[test]
fn view_mode_defaults_to_empty() {
    assert_eq!(ViewMode::default(), ViewMode::Empty);
}

#[test]
fn render_mode_all_contains_every_variant() {
    assert_eq!(RenderMode::all().len(), 6);
}

#[test]
fn every_view_mode_has_a_nonempty_label() {
    for mode in [
        ViewMode::Empty,
        ViewMode::System,
        ViewMode::Globe,
        ViewMode::Detail,
    ] {
        assert!(!mode.label().is_empty());
    }
}

#[test]
fn labels_match_their_modes() {
    assert_eq!(ViewMode::Empty.label(), "Welcome");
    assert_eq!(RenderMode::Confidence.label(), "Confidence");
    assert_eq!(RenderMode::default(), RenderMode::Elevation);
    let all = RenderMode::all();
    for (i, a) in all.iter().enumerate() {
        for b in &all[i + 1..] {
            assert_ne!(a, b);
        }
    }
}

#[test]
fn open_missing_path_reports_not_found() {
    let err = LoadedWorld::open(PathBuf::from("/definitely/not/a/path/ymir-test")).unwrap_err();
    assert!(matches!(err, WorldLoadError::NotFound(_)));
}

#[test]
fn probe_outcomes_decide_the_result() {
    let p = PathBuf::from("/some/world");
    assert!(matches!(
        LoadedWorld::from_probe(p.clone(), false, false),
        Err(WorldLoadError::NotFound(ref q)) if *q == p
    ));
    assert!(matches!(
        LoadedWorld::from_probe(p.clone(), true, false),
        Err(WorldLoadError::NotADirectory(ref q)) if *q == p
    ));
    let w = LoadedWorld::from_probe(p.clone(), true, true).unwrap();
    assert_eq!(w.path(), &p);
}

#[test]
fn world_error_messages() {
    let e = WorldLoadError::NotFound(PathBuf::from("/x/y"));
    assert_eq!(e.to_string(), "world directory does not exist: /x/y");
    let e = WorldLoadError::NotADirectory(PathBuf::from("/x/z"));
    assert_eq!(e.to_string(), "path is not a directory: /x/z");
}

#[test]
fn class_index_covers_all_variants() {
    for class in ALL_CLASSES {
        let idx = class_index(class);
        assert!(idx < 7, "class_index out of range for {class:?}");
        assert_eq!(&ALL_CLASSES[idx], class);
    }
}

#[test]
fn spectral_label_formats_correctly() {
    let ist = IndexedSpectralType {
        class: SpectralClass::G,
        subtype: 2,
    };
    assert_eq!(spectral_label(&ist), "G2");
}

#[test]
fn display_name_prefers_common_name() {
    assert_eq!(
        display_name(&Some("Alpha Centauri".to_string()), 42),
        "Alpha Centauri"
    );
}

#[test]
fn display_name_falls_back_to_gaia_id() {
    assert_eq!(display_name(&None, 9999), "Gaia 9999");
}

#[test]
fn text_filter_matches_common_name_case_insensitively() {
    let name = Some("Proxima Centauri".to_string());
    assert!(text_matches("proxima", &name, 1));
    assert!(!text_matches("proxima", &Some("Tau Ceti".to_string()), 2));
}

#[test]
fn text_filter_falls_through_to_gaia_id() {
    assert!(text_matches(
        "5853498713190525696",
        &None,
        5853498713190525696
    ));
    assert!(text_matches("4987131", &Some("Proxima Centauri".to_string()), 5853498713190525696));
    assert!(!text_matches("5853498713190525696", &None, 1));
}

#[test]
fn empty_text_filter_matches_everything() {
    assert!(text_matches("", &None, 0));
    assert!(text_matches("", &Some("Vega".to_string()), 7));
}

#[test]
fn all_classes_enabled_returns_true_by_default() {
    assert!(all_classes_enabled(&[true; 7]));
}

#[test]
fn all_classes_enabled_returns_false_when_one_disabled() {
    let mut enabled = [true; 7];
    enabled[0] = false;
    assert!(!all_classes_enabled(&enabled));
}

#[test]
fn spectral_filter_excludes_disabled_classes() {
    let mut enabled = [false; 7];
    enabled[class_index(&SpectralClass::G)] = true;
    assert!(class_passes(&enabled, &SpectralClass::G));
    assert!(!class_passes(&enabled, &SpectralClass::M));
    assert!(class_passes(&[true; 7], &SpectralClass::M));
}

#[test]
fn to_catalog_query_single_class_passes_spectral() {
    let mut enabled = [false; 7];
    enabled[class_index(&SpectralClass::G)] = true;
    assert!(matches!(single_enabled_class(&enabled), Some(SpectralClass::G)));
}

#[test]
fn to_catalog_query_multi_class_omits_spectral() {
    let mut enabled = [false; 7];
    enabled[class_index(&SpectralClass::G)] = true;
    enabled[class_index(&SpectralClass::K)] = true;
    assert!(single_enabled_class(&enabled).is_none());
    assert!(single_enabled_class(&[true; 7]).is_none());
    assert!(single_enabled_class(&[false; 7]).is_none());
}

#[test]
fn arrow_keys_move_the_cursor_within_the_list() {
    assert_eq!(move_cursor(None, 5, true), 1);
    assert_eq!(move_cursor(None, 5, false), 0);
    assert_eq!(move_cursor(Some(3), 5, true), 4);
    assert_eq!(move_cursor(Some(4), 5, true), 4);
    assert_eq!(move_cursor(Some(0), 5, false), 0);
    assert_eq!(move_cursor(Some(2), 5, false), 1);
    assert_eq!(move_cursor(None, 1, true), 0);
}

#[test]
fn rebuilt_list_clamps_the_cursor() {
    assert_eq!(clamp_cursor(Some(7), 3), Some(2));
    assert_eq!(clamp_cursor(Some(7), 0), None);
    assert_eq!(clamp_cursor(Some(1), 3), Some(1));
    assert_eq!(clamp_cursor(None, 3), None);
}
