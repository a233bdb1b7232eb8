use xindeler_sim_bridge::chat::Content;
use xindeler_sim_bridge::grid::{grid_dims, sample_points, SamplePoint};
use xindeler_sim_bridge::lod_alt::{
    lod_alt_grid_dims, send_lod_alt_once, ChunkExtent, LodAltState, LOD_ALT_MAX_DIM,
};
use xindeler_sim_bridge::lod_objects::{
    capped_objects, send_lod_zone_updates, LodObject, LodZoneStreamState, ZoneRow,
    LOD_ZONE_MAX_OBJECTS,
};
use xindeler_sim_bridge::map::{
    map_image_grid_dims, project_marker, project_poi, send_map_data_once, MapDataState, MapFacts,
    MarkerFacts, NetPoiKind, PoiFacts, PoiKind, MAP_IMAGE_MAX_DIM,
};

#[test]
fn lod_alt_grid_dims_under_cap_is_1_to_1() {
    assert_eq!(lod_alt_grid_dims(64, 64), (1, 64, 64));
    assert_eq!(lod_alt_grid_dims(128, 128), (1, 128, 128));
}

#[test]
fn lod_alt_grid_dims_non_square_world() {
    assert_eq!(lod_alt_grid_dims(1024, 256), (8, 128, 32));
}

#[test]
fn lod_alt_grid_dims_default_world_size() {
    assert_eq!(lod_alt_grid_dims(1024, 1024), (8, 128, 128));
}

#[test]
fn lod_alt_grid_dims_non_power_of_two() {
    let (stride, grid_w, grid_h) = lod_alt_grid_dims(1000, 777);
    assert_eq!(stride, 8);
    assert_eq!(grid_w, 125);
    assert_eq!(grid_h, 98);
    assert!(grid_w <= LOD_ALT_MAX_DIM && grid_h <= LOD_ALT_MAX_DIM);
}

#[test]
fn lod_alt_grid_dims_zero_axis_never_yields_zero_grid() {
    let (stride, grid_w, grid_h) = lod_alt_grid_dims(0, 64);
    assert_eq!(stride, 1);
    assert_eq!(grid_w, 1);
    assert_eq!(grid_h, 64);
}

#[test]
fn map_image_grid_dims_keeps_small_worlds_at_full_resolution() {
    let (stride, w, h) = map_image_grid_dims(64, 32);
    assert_eq!(stride, 1);
    assert_eq!(w, 64);
    assert_eq!(h, 32);
}

#[test]
fn map_image_grid_dims_caps_large_worlds() {
    let (stride, w, h) = map_image_grid_dims(1024, 1024);
    assert!(stride > 1);
    assert!(w <= MAP_IMAGE_MAX_DIM);
    assert!(h <= MAP_IMAGE_MAX_DIM);
}

#[test]
fn map_image_grid_dims_never_zero() {
    let (stride, w, h) = map_image_grid_dims(0, 0);
    assert!(stride >= 1);
    assert!(w >= 1);
    assert!(h >= 1);
}

#[test]
fn grid_of_the_longest_axis_stays_under_the_cap() {
    assert_eq!(grid_dims(u32::MAX, 1, 1), (u32::MAX, 1, 1));
    assert_eq!(grid_dims(257, 256, 256), (2, 129, 128));
    assert_eq!(map_image_grid_dims(1024, 1024), (4, 256, 256));
}

#[test]
fn sample_points_run_row_by_row_inside_the_world() {
    let points = sample_points(5, 3, 3);
    assert_eq!(grid_dims(5, 3, 3), (2, 3, 2));
    assert_eq!(
        points,
        vec![
            SamplePoint { x: 0, y: 0 },
            SamplePoint { x: 2, y: 0 },
            SamplePoint { x: 4, y: 0 },
            SamplePoint { x: 0, y: 2 },
            SamplePoint { x: 2, y: 2 },
            SamplePoint { x: 4, y: 2 },
        ]
    );
}

#[test]
fn heights_are_sent_once_and_not_before_a_player() {
    let mut state = LodAltState::new();
    assert!(send_lod_alt_once(&mut state, None).is_none());
    assert!(send_lod_alt_once(&mut state, Some(ChunkExtent { w: 0, h: 4 })).is_none());
    assert!(!state.sent);
    let plan = send_lod_alt_once(&mut state, Some(ChunkExtent { w: 256, h: 2 })).unwrap();
    assert_eq!((plan.stride, plan.grid_w, plan.grid_h), (2, 128, 1));
    assert_eq!(plan.samples.len(), 128);
    assert_eq!(plan.samples[127], SamplePoint { x: 254, y: 0 });
    assert!(state.sent);
    assert!(send_lod_alt_once(&mut state, Some(ChunkExtent { w: 256, h: 2 })).is_none());
}

fn facts() -> MapFacts {
    MapFacts {
        chunks: ChunkExtent { w: 4, h: 4 },
        image_w: 2,
        image_h: 1,
        markers: vec![
            MarkerFacts {
                kind: 3,
                wpos_x: 1.5f32.to_bits(),
                wpos_y: 2.5f32.to_bits(),
                label: Some(Content::Plain("Emberfall".to_owned())),
                is_quest: false,
            },
            MarkerFacts { kind: 4, wpos_x: 0, wpos_y: 0, label: None, is_quest: true },
        ],
        pois: vec![
            PoiFacts { name: "Mount".to_owned(), wpos_x: 7, wpos_y: -7, kind: PoiKind::Peak(900) },
            PoiFacts { name: "Tarn".to_owned(), wpos_x: 1, wpos_y: 2, kind: PoiKind::Lake(3) },
        ],
    }
}

#[test]
fn map_is_sent_once() {
    let mut state = MapDataState::new();
    assert!(send_map_data_once(&mut state, &None).is_none());
    let mut blank = facts();
    blank.image_h = 0;
    assert!(send_map_data_once(&mut state, &Some(blank)).is_none());
    let mut blank = facts();
    blank.chunks = ChunkExtent { w: 4, h: 0 };
    assert!(send_map_data_once(&mut state, &Some(blank)).is_none());
    let plan = send_map_data_once(&mut state, &Some(facts())).unwrap();
    assert_eq!((plan.stride, plan.out_w, plan.out_h), (1, 2, 1));
    assert_eq!(plan.samples, vec![SamplePoint { x: 0, y: 0 }, SamplePoint { x: 1, y: 0 }]);
    assert_eq!(plan.markers.len(), 2);
    assert_eq!(plan.markers[0].label.as_deref(), Some("Emberfall"));
    assert_eq!(plan.markers[0].wpos_x, 1.5f32.to_bits());
    assert!(plan.markers[1].is_quest);
    assert_eq!(plan.pois[0].name, "Mount");
    assert_eq!(plan.pois[0].kind, NetPoiKind::Peak);
    assert_eq!(plan.pois[1].kind, NetPoiKind::Lake);
    assert!(send_map_data_once(&mut state, &Some(facts())).is_none());
}

#[test]
fn marker_label_is_shown_only_as_plain_text() {
    let facts = facts();
    assert_eq!(project_marker(&facts.markers[0]).label.as_deref(), Some("Emberfall"));
    let keyed = MarkerFacts {
        kind: 1,
        wpos_x: 0,
        wpos_y: 0,
        label: Some(Content::Described("marker-cave".to_owned())),
        is_quest: false,
    };
    assert_eq!(project_marker(&keyed).label, None);
    assert_eq!(project_poi(&facts.pois[0]).wpos_y, -7);
}

fn dummy_object(seed: i16) -> LodObject {
    LodObject { kind: 1, x: seed, y: seed, z: seed, flags: 0, r: 10, g: 80, b: 20 }
}

#[test]
fn capped_objects_keeps_small_zones_whole() {
    let objects: Vec<_> = (0..10).map(dummy_object).collect();
    let capped = capped_objects(&objects);
    assert_eq!(capped.len(), 10);
}

#[test]
fn capped_objects_bounds_large_zones_deterministically() {
    let objects: Vec<_> = (0..(LOD_ZONE_MAX_OBJECTS as i16 * 3)).map(dummy_object).collect();
    let capped_a = capped_objects(&objects);
    let capped_b = capped_objects(&objects);
    assert!(capped_a.len() <= LOD_ZONE_MAX_OBJECTS);
    assert!(!capped_a.is_empty());
    assert_eq!(capped_a.len(), capped_b.len());
    for (a, b) in capped_a.iter().zip(capped_b.iter()) {
        assert_eq!((a.x, a.y, a.z), (b.x, b.y, b.z));
    }
}

#[test]
fn capped_objects_take_every_so_many_th() {
    let objects: Vec<_> = (0..801).map(dummy_object).collect();
    let capped = capped_objects(&objects);
    assert_eq!(capped.len(), 401);
    assert_eq!(capped[1].x, 2);
    assert_eq!(capped[400].x, 800);
    let objects: Vec<_> = (0..800).map(dummy_object).collect();
    assert_eq!(capped_objects(&objects), objects);
}

fn zone(x: i32, y: i32) -> ZoneRow {
    ZoneRow { x, y, objects: vec![dummy_object(1), dummy_object(2)] }
}

#[test]
fn zones_are_told_of_as_they_come_and_go() {
    let mut state = LodZoneStreamState::new();
    let plan = send_lod_zone_updates(&mut state, &Vec::new());
    assert!(plan.added.is_empty() && plan.removed.is_empty());

    let plan = send_lod_zone_updates(&mut state, &vec![zone(0, 0), zone(1, -1)]);
    assert_eq!(plan.added.len(), 2);
    assert_eq!((plan.added[1].x, plan.added[1].y), (1, -1));
    assert_eq!(plan.added[1].objects.len(), 2);
    assert!(plan.removed.is_empty());
    assert!(state.knows(1, -1) && !state.knows(-1, 1));

    let plan = send_lod_zone_updates(&mut state, &vec![zone(0, 0), zone(1, -1)]);
    assert!(plan.added.is_empty() && plan.removed.is_empty());

    let plan = send_lod_zone_updates(&mut state, &vec![zone(1, -1), zone(5, 5)]);
    assert_eq!(plan.added.len(), 1);
    assert_eq!((plan.added[0].x, plan.added[0].y), (5, 5));
    assert_eq!(plan.removed, vec![(0, 0)]);
    assert!(!state.knows(0, 0));

    let mut gone = send_lod_zone_updates(&mut state, &Vec::new()).removed;
    gone.sort();
    assert_eq!(gone, vec![(1, -1), (5, 5)]);
    assert!(!state.knows(5, 5));
}
