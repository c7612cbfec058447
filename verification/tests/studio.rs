use wops::studio::{
    CaptureLink, EventEffect, FrameLayerStep, frame_layer_step, RemovedCapture, add_scene, add_source, apply_capture_event,
    remove_scene, remove_source, scene_name, set_source_visibility, status_from_capture,
    theme_label,
};
use wops::{
    CaptureEvent, CaptureKind, CaptureState, Scene, Source, SourceInfo, SourceKind, SourceStatus,
    ThemePreference, remove_layer,
};

fn source(id: u64, name: &str, kind: SourceKind) -> Source {
    Source {
        id,
        name: name.to_owned(),
        kind,
        status: SourceStatus::Starting,
        visible: true,
    }
}

#[test]
fn capture_states_map_to_source_statuses() {
    assert_eq!(status_from_capture(CaptureState::Starting), SourceStatus::Starting);
    assert_eq!(status_from_capture(CaptureState::Active), SourceStatus::Active);
    assert_eq!(status_from_capture(CaptureState::Lost), SourceStatus::Lost);
    assert_eq!(status_from_capture(CaptureState::Stopped), SourceStatus::Stopped);
    assert_eq!(status_from_capture(CaptureState::Error), SourceStatus::Error);
}

#[test]
fn themes_have_labels() {
    assert_eq!(theme_label(ThemePreference::Dark), "Dark studio");
    assert_eq!(theme_label(ThemePreference::Light), "Light studio");
}

#[test]
fn state_events_update_status_and_layer() {
    let mut sources = vec![source(1, "a", SourceKind::Screen), source(2, "b", SourceKind::Webcam)];
    let link = CaptureLink { source_id: 2, layer_index: Some(4) };
    let effect = apply_capture_event(&mut sources, &link, CaptureEvent::State(CaptureState::Active));
    assert_eq!(effect, EventEffect::Updated { layer: Some((4, true)) });
    assert_eq!(sources[1].status, SourceStatus::Active);
    assert_eq!(sources[0].status, SourceStatus::Starting);
    let effect = apply_capture_event(&mut sources, &link, CaptureEvent::State(CaptureState::Lost));
    assert_eq!(effect, EventEffect::Updated { layer: Some((4, false)) });
    let effect = apply_capture_event(&mut sources, &link, CaptureEvent::State(CaptureState::Starting));
    assert_eq!(effect, EventEffect::Updated { layer: None });
    assert_eq!(sources[1].status, SourceStatus::Starting);
}

#[test]
fn hidden_sources_stay_hidden_when_active() {
    let mut sources = vec![source(7, "a", SourceKind::Window)];
    sources[0].visible = false;
    let link = CaptureLink { source_id: 7, layer_index: Some(1) };
    let effect = apply_capture_event(&mut sources, &link, CaptureEvent::State(CaptureState::Active));
    assert_eq!(effect, EventEffect::Updated { layer: Some((1, false)) });
}

#[test]
fn info_events_rename_and_errors_hide() {
    let mut sources = vec![source(3, "Screen Capture", SourceKind::Screen)];
    let link = CaptureLink { source_id: 3, layer_index: None };
    let info = SourceInfo {
        name: "Monitor 1".to_owned(),
        kind: CaptureKind::Screen,
        width: 1920,
        height: 1080,
        fps_num: 60,
        fps_den: 1,
    };
    assert_eq!(
        apply_capture_event(&mut sources, &link, CaptureEvent::Info(info)),
        EventEffect::Updated { layer: None }
    );
    assert_eq!(sources[0].name, "Monitor 1");
    let link = CaptureLink { source_id: 3, layer_index: Some(2) };
    assert_eq!(
        apply_capture_event(&mut sources, &link, CaptureEvent::Error("gone".to_owned())),
        EventEffect::Updated { layer: Some((2, false)) }
    );
    assert_eq!(sources[0].status, SourceStatus::Error);
}

#[test]
fn restore_tokens_and_unknown_sources() {
    let mut sources = vec![source(3, "w", SourceKind::Window)];
    let link = CaptureLink { source_id: 3, layer_index: None };
    assert_eq!(
        apply_capture_event(&mut sources, &link, CaptureEvent::RestoreToken("t".to_owned())),
        EventEffect::RestoreToken { kind: SourceKind::Window, token: "t".to_owned() }
    );
    let stranger = CaptureLink { source_id: 9, layer_index: Some(0) };
    assert_eq!(
        apply_capture_event(&mut sources, &stranger, CaptureEvent::State(CaptureState::Active)),
        EventEffect::Unknown
    );
    assert_eq!(sources, vec![source(3, "w", SourceKind::Window)]);
}

#[test]
fn removing_a_source_renumbers_later_layers() {
    let mut sources = vec![
        source(1, "a", SourceKind::Screen),
        source(2, "b", SourceKind::Window),
        source(3, "c", SourceKind::Webcam),
    ];
    let mut links = vec![
        CaptureLink { source_id: 1, layer_index: Some(3) },
        CaptureLink { source_id: 2, layer_index: Some(4) },
        CaptureLink { source_id: 3, layer_index: Some(5) },
    ];
    let removed = remove_source(&mut sources, &mut links, 2);
    assert_eq!(removed, Some(RemovedCapture { capture_index: 1, layer_index: Some(4) }));
    assert_eq!(sources.iter().map(|s| s.id).collect::<Vec<_>>(), vec![1, 3]);
    assert_eq!(
        links,
        vec![
            CaptureLink { source_id: 1, layer_index: Some(3) },
            CaptureLink { source_id: 3, layer_index: Some(4) },
        ]
    );
    assert_eq!(remove_source(&mut sources, &mut links, 9), None);
    assert_eq!(links.len(), 2);
}

#[test]
fn removing_a_source_without_layer_keeps_indices() {
    let mut sources = vec![source(1, "a", SourceKind::Screen), source(2, "b", SourceKind::Window)];
    let mut links = vec![
        CaptureLink { source_id: 1, layer_index: None },
        CaptureLink { source_id: 2, layer_index: Some(3) },
    ];
    let removed = remove_source(&mut sources, &mut links, 1);
    assert_eq!(removed, Some(RemovedCapture { capture_index: 0, layer_index: None }));
    assert_eq!(links, vec![CaptureLink { source_id: 2, layer_index: Some(3) }]);
}

#[test]
fn visibility_follows_the_capture_layer() {
    let mut sources = vec![source(1, "a", SourceKind::Screen)];
    let links = vec![CaptureLink { source_id: 1, layer_index: Some(6) }];
    assert_eq!(set_source_visibility(&mut sources, &links, 1, false), Some(6));
    assert!(!sources[0].visible);
    assert_eq!(set_source_visibility(&mut sources, &links, 5, true), None);
}

#[test]
fn new_sources_get_fresh_ids() {
    let mut sources = Vec::new();
    let mut next = 1;
    let first = add_source(&mut sources, &mut next, "Screen Capture".to_owned(), SourceKind::Screen, true);
    let second = add_source(&mut sources, &mut next, "Cam".to_owned(), SourceKind::Webcam, false);
    assert_eq!((first, second, next), (1, 2, 3));
    assert_eq!(sources[0].status, SourceStatus::Starting);
    assert_eq!(sources[1].status, SourceStatus::Error);
    assert!(sources.iter().all(|s| s.visible));
}

#[test]
fn scenes_are_numbered_and_never_run_out() {
    let mut scenes = vec![Scene { name: "Scene".to_owned() }];
    assert_eq!(add_scene(&mut scenes), 1);
    assert_eq!(scenes[1].name, "Scene 2");
    for _ in 0..9 {
        add_scene(&mut scenes);
    }
    assert_eq!(scenes[10].name, "Scene 11");
    assert_eq!(scene_name(120), "Scene 120");
    assert_eq!(remove_scene(&mut scenes, 10, 10), 9);
    assert_eq!(scenes.len(), 10);
    assert_eq!(remove_scene(&mut scenes, 0, 3), 3);
    let mut single = vec![Scene { name: "Scene".to_owned() }];
    assert_eq!(remove_scene(&mut single, 0, 0), 0);
    assert_eq!(single.len(), 1);
}

#[test]
fn capture_layers_still_name_their_layers_after_a_removal() {
    let mut layers = vec!["background", "bars", "gradient", "screen", "window", "webcam"];
    let mut sources = vec![
        source(1, "screen", SourceKind::Screen),
        source(2, "window", SourceKind::Window),
        source(3, "webcam", SourceKind::Webcam),
    ];
    let mut links = vec![
        CaptureLink { source_id: 1, layer_index: Some(3) },
        CaptureLink { source_id: 2, layer_index: Some(4) },
        CaptureLink { source_id: 3, layer_index: Some(5) },
    ];
    let removed = remove_source(&mut sources, &mut links, 1).unwrap();
    wops::remove_layer(&mut layers, removed.layer_index.unwrap()).unwrap();
    assert_eq!(layers[links[0].layer_index.unwrap()], "window");
    assert_eq!(layers[links[1].layer_index.unwrap()], "webcam");
}

#[test]
fn removed_capture_layers_keep_the_others_pointing_at_their_own_layer() {
    let mut layers = vec!["background", "screen", "webcam", "logo"];
    let mut sources = vec![
        source(1, "Screen", SourceKind::Screen),
        source(2, "Webcam", SourceKind::Webcam),
        source(3, "Window", SourceKind::Window),
    ];
    let mut links = vec![
        CaptureLink { source_id: 1, layer_index: Some(1) },
        CaptureLink { source_id: 2, layer_index: Some(2) },
        CaptureLink { source_id: 3, layer_index: Some(3) },
    ];
    let removed = remove_source(&mut sources, &mut links, 1).unwrap();
    remove_layer(&mut layers, removed.layer_index.unwrap()).unwrap();
    assert_eq!(layers, vec!["background", "webcam", "logo"]);
    assert_eq!(layers[links[0].layer_index.unwrap()], "webcam");
    assert_eq!(layers[links[1].layer_index.unwrap()], "logo");
    assert_ne!(links[0].layer_index, links[1].layer_index);
}

#[test]
fn first_frame_hides_test_layers_and_later_frames_update() {
    let fresh = CaptureLink { source_id: 1, layer_index: None };
    assert_eq!(frame_layer_step(&fresh, 5), FrameLayerStep::Add { hidden: vec![1, 2] });
    assert_eq!(frame_layer_step(&fresh, 2), FrameLayerStep::Add { hidden: vec![1] });
    assert_eq!(frame_layer_step(&fresh, 0), FrameLayerStep::Add { hidden: vec![] });
    let shown = CaptureLink { source_id: 1, layer_index: Some(4) };
    assert_eq!(frame_layer_step(&shown, 5), FrameLayerStep::Update { layer: 4 });
}
