//! The world map that is broadcast once per session.

use crate::chat::Content;
use crate::grid::{
    dims_for, grid_dims, law_grid_reaches_both_ends, law_samples_lie_row_by_row, sample_grid,
    sample_points, SamplePoint,
};
use crate::lod_alt::ChunkExtent;
use crate::net_value::models;
use crate::text::text_of;
use vstd::prelude::*;

verus! {

/// The most pixels along one axis of the map image.
pub const MAP_IMAGE_MAX_DIM: u32 = 256;

/// Whether the map was sent.
pub struct MapDataState {
    pub sent: bool,
}

impl MapDataState {
    /// Nothing was sent yet.
    pub fn new() -> (state: MapDataState)
        ensures
            !state.sent,
    {
        MapDataState { sent: false }
    }
}

/// The stride and the numbers of pixels along both axes, for an image of this size.
pub fn map_image_grid_dims(width: u32, height: u32) -> (dims: (u32, u32, u32))
    ensures
        (dims.0 as int, dims.1 as int, dims.2 as int) == dims_for(
            width as int,
            height as int,
            MAP_IMAGE_MAX_DIM as int,
        ),
{
    grid_dims(width, height, MAP_IMAGE_MAX_DIM)
}

/// What is read of a marker. Its kind is a number, its position a pair of bit patterns.
pub struct MarkerFacts {
    pub kind: u32,
    pub wpos_x: u32,
    pub wpos_y: u32,
    pub label: Option<Content>,
    pub is_quest: bool,
}

/// A marker as it is replicated.
pub struct NetMapMarker {
    pub kind: u32,
    pub wpos_x: u32,
    pub wpos_y: u32,
    pub label: Option<String>,
    pub is_quest: bool,
}

/// A [`NetMapMarker`] over text.
pub ghost struct MarkerModel {
    pub kind: u32,
    pub wpos_x: u32,
    pub wpos_y: u32,
    pub label: Option<Seq<char>>,
    pub is_quest: bool,
}

impl View for NetMapMarker {
    type V = MarkerModel;

    open spec fn view(&self) -> MarkerModel {
        MarkerModel {
            kind: self.kind,
            wpos_x: self.wpos_x,
            wpos_y: self.wpos_y,
            label: text_of(self.label),
            is_quest: self.is_quest,
        }
    }
}

/// A marker as it is replicated; only a label of plain text is shown.
pub open spec fn marker_model(marker: MarkerFacts) -> MarkerModel {
    MarkerModel {
        kind: marker.kind,
        wpos_x: marker.wpos_x,
        wpos_y: marker.wpos_y,
        label: match marker.label {
            Some(Content::Plain(text)) => Some(text@),
            _ => None,
        },
        is_quest: marker.is_quest,
    }
}

/// Projects a marker.
pub fn project_marker(marker: &MarkerFacts) -> (net: NetMapMarker)
    ensures
        net@ == marker_model(*marker),
{
    let label = match &marker.label {
        Some(Content::Plain(text)) => Some(text.clone()),
        _ => None,
    };
    NetMapMarker {
        kind: marker.kind,
        wpos_x: marker.wpos_x,
        wpos_y: marker.wpos_y,
        label,
        is_quest: marker.is_quest,
    }
}

/// A place of interest: a peak of some height, or a lake of some extent.
#[derive(Clone, Copy, Debug, PartialEq, Eq, Structural)]
pub enum PoiKind {
    Peak(u32),
    Lake(u32),
}

/// The sort of a place of interest.
#[derive(Clone, Copy, Debug, PartialEq, Eq, Structural)]
pub enum NetPoiKind {
    Peak,
    Lake,
}

/// What is read of a place of interest.
pub struct PoiFacts {
    pub name: String,
    pub wpos_x: i32,
    pub wpos_y: i32,
    pub kind: PoiKind,
}

/// A place of interest as it is replicated.
pub struct NetMapPoi {
    pub name: String,
    pub wpos_x: i32,
    pub wpos_y: i32,
    pub kind: NetPoiKind,
}

/// A [`NetMapPoi`] over text.
pub ghost struct PoiModel {
    pub name: Seq<char>,
    pub wpos_x: i32,
    pub wpos_y: i32,
    pub kind: NetPoiKind,
}

impl View for NetMapPoi {
    type V = PoiModel;

    open spec fn view(&self) -> PoiModel {
        PoiModel { name: self.name@, wpos_x: self.wpos_x, wpos_y: self.wpos_y, kind: self.kind }
    }
}

/// A place of interest as it is replicated.
pub open spec fn poi_model(poi: PoiFacts) -> PoiModel {
    PoiModel {
        name: poi.name@,
        wpos_x: poi.wpos_x,
        wpos_y: poi.wpos_y,
        kind: match poi.kind {
            PoiKind::Peak(_) => NetPoiKind::Peak,
            PoiKind::Lake(_) => NetPoiKind::Lake,
        },
    }
}

/// Projects a place of interest.
pub fn project_poi(poi: &PoiFacts) -> (net: NetMapPoi)
    ensures
        net@ == poi_model(*poi),
{
    NetMapPoi {
        name: poi.name.clone(),
        wpos_x: poi.wpos_x,
        wpos_y: poi.wpos_y,
        kind: match poi.kind {
            PoiKind::Peak(_) => NetPoiKind::Peak,
            PoiKind::Lake(_) => NetPoiKind::Lake,
        },
    }
}

/// What is read of the world's map: its extent in chunks, the size of its image, and what is
/// marked on it.
pub struct MapFacts {
    pub chunks: ChunkExtent,
    pub image_w: u32,
    pub image_h: u32,
    pub markers: Vec<MarkerFacts>,
    pub pois: Vec<PoiFacts>,
}

/// The map to send: the layout of its image, the pixels that it is made of, row by row, and
/// what is marked on it.
pub struct MapPlan {
    pub stride: u32,
    pub out_w: u32,
    pub out_h: u32,
    pub samples: Vec<SamplePoint>,
    pub markers: Vec<NetMapMarker>,
    pub pois: Vec<NetMapPoi>,
}

/// Whether there is anything to send: not before a player is there, nor for a world or an
/// image without extent, nor a second time.
pub open spec fn ready(sent: bool, facts: Option<MapFacts>) -> bool {
    &&& !sent
    &&& facts is Some
    &&& facts->0.chunks.w != 0
    &&& facts->0.chunks.h != 0
    &&& facts->0.image_w != 0
    &&& facts->0.image_h != 0
}

/// The map that is sent of a world.
pub open spec fn is_map_of(plan: MapPlan, facts: MapFacts) -> bool {
    let (stride, out_w, out_h) = dims_for(
        facts.image_w as int,
        facts.image_h as int,
        MAP_IMAGE_MAX_DIM as int,
    );
    &&& plan.stride == stride
    &&& plan.out_w == out_w
    &&& plan.out_h == out_h
    &&& plan.samples@ == sample_grid(stride, out_w as nat, out_h as nat)
    &&& models(plan.markers@) == facts.markers@.map_values(
        |marker: MarkerFacts| marker_model(marker),
    )
    &&& models(plan.pois@) == facts.pois@.map_values(|poi: PoiFacts| poi_model(poi))
}

/// Plans the map the first time that it can be sent. `facts` is `None` without a local
/// player.
pub fn send_map_data_once(state: &mut MapDataState, facts: &Option<MapFacts>) -> (plan: Option<
    MapPlan,
>)
    ensures
        plan is Some <==> ready(old(state).sent, *facts),
        final(state).sent == (old(state).sent || plan is Some),
        plan is Some ==> is_map_of(plan->0, facts->0),
        plan is Some ==> forall|k: int|
            0 <= k < plan->0.samples@.len() ==> (#[trigger] plan->0.samples@[k]).x
                < facts->0.image_w && plan->0.samples@[k].y < facts->0.image_h,
{
    if state.sent {
        return None;
    }
    let facts = match facts {
        Some(facts) => facts,
        None => {
            return None;
        },
    };
    if facts.chunks.w == 0 || facts.chunks.h == 0 {
        return None;
    }
    if facts.image_w == 0 || facts.image_h == 0 {
        return None;
    }
    let (stride, out_w, out_h): (u32, u32, u32) = map_image_grid_dims(
        facts.image_w,
        facts.image_h,
    );
    let samples = sample_points(facts.image_w, facts.image_h, MAP_IMAGE_MAX_DIM);
    let mut markers: Vec<NetMapMarker> = Vec::new();
    let mut i: usize = 0;
    while i < facts.markers.len()
        invariant
            i <= facts.markers.len(),
            markers@.len() == i,
            forall|j: int|
                0 <= j < i ==> (#[trigger] markers@[j])@ == marker_model(facts.markers@[j]),
        decreases facts.markers.len() - i,
    {
        markers.push(project_marker(&facts.markers[i]));
        i += 1;
    }
    let mut pois: Vec<NetMapPoi> = Vec::new();
    let mut k: usize = 0;
    while k < facts.pois.len()
        invariant
            k <= facts.pois.len(),
            pois@.len() == k,
            forall|j: int| 0 <= j < k ==> (#[trigger] pois@[j])@ == poi_model(facts.pois@[j]),
        decreases facts.pois.len() - k,
    {
        pois.push(project_poi(&facts.pois[k]));
        k += 1;
    }
    state.sent = true;
    let plan = MapPlan { stride, out_w, out_h, samples, markers, pois };
    assert(models(plan.markers@) =~= facts.markers@.map_values(
        |marker: MarkerFacts| marker_model(marker),
    ));
    assert(models(plan.pois@) =~= facts.pois@.map_values(|poi: PoiFacts| poi_model(poi)));
    Some(plan)
}

/// The map of a world shows every marker and every place of interest, in order, as they are:
/// each of its own kind and in its own place, a marker under its label where that is plain text
/// and under none otherwise, and a place under its own name.
pub proof fn law_map_shows_what_is_marked(plan: MapPlan, facts: MapFacts)
    requires
        is_map_of(plan, facts),
    ensures
        plan.markers@.len() == facts.markers@.len(),
        forall|i: int|
            #![trigger plan.markers@[i]]
            #![trigger facts.markers@[i]]
            0 <= i < facts.markers@.len() ==> {
                let (shown, marker) = (plan.markers@[i], facts.markers@[i]);
                &&& shown.kind == marker.kind
                &&& shown.wpos_x == marker.wpos_x
                &&& shown.wpos_y == marker.wpos_y
                &&& shown.is_quest == marker.is_quest
                &&& shown.label is Some <==> marker.label is Some && marker.label->0 is Plain
                &&& shown.label is Some ==> shown.label->0@ == marker.label->0->Plain_0@
            },
        plan.pois@.len() == facts.pois@.len(),
        forall|i: int|
            #![trigger plan.pois@[i]]
            #![trigger facts.pois@[i]]
            0 <= i < facts.pois@.len() ==> {
                let (shown, poi) = (plan.pois@[i], facts.pois@[i]);
                &&& shown.name@ == poi.name@
                &&& shown.wpos_x == poi.wpos_x
                &&& shown.wpos_y == poi.wpos_y
                &&& shown.kind is Peak <==> poi.kind is Peak
                &&& shown.kind is Lake <==> poi.kind is Lake
            },
{
    let markers = models(plan.markers@);
    let pois = models(plan.pois@);
    assert(markers.len() == facts.markers@.len());
    assert(pois.len() == facts.pois@.len());
    assert forall|i: int|
        #![trigger plan.markers@[i]]
        #![trigger facts.markers@[i]]
        0 <= i < facts.markers@.len() implies plan.markers@[i]@ == marker_model(facts.markers@[i]) by {
        assert(markers[i] == plan.markers@[i]@);
        assert(markers[i] == marker_model(facts.markers@[i]));
    }
    assert forall|i: int|
        #![trigger plan.pois@[i]]
        #![trigger facts.pois@[i]]
        0 <= i < facts.pois@.len() implies plan.pois@[i]@ == poi_model(facts.pois@[i]) by {
        assert(pois[i] == plan.pois@[i]@);
        assert(pois[i] == poi_model(facts.pois@[i]));
    }
}

/// The image of a map is sampled whole: its rows and columns are the fewest that reach its
/// edges with one stride, and the sample in a column of a row lies as many strides along and as
/// many down.
pub proof fn law_map_image_is_sampled_evenly(plan: MapPlan, facts: MapFacts, column: int, row: int)
    requires
        is_map_of(plan, facts),
        facts.image_w > 0,
        facts.image_h > 0,
        0 <= column < plan.out_w,
        0 <= row < plan.out_h,
    ensures
        (plan.out_w - 1) * plan.stride < facts.image_w <= plan.out_w * plan.stride,
        (plan.out_h - 1) * plan.stride < facts.image_h <= plan.out_h * plan.stride,
        plan.samples@.len() == plan.out_w * plan.out_h,
        0 <= row * plan.out_w + column < plan.samples@.len(),
        plan.samples@[row * plan.out_w + column].x == column * plan.stride,
        plan.samples@[row * plan.out_w + column].y == row * plan.stride,
{
    law_grid_reaches_both_ends(
        facts.image_w as int,
        facts.image_h as int,
        MAP_IMAGE_MAX_DIM as int,
    );
    law_samples_lie_row_by_row(
        plan.stride as int,
        plan.out_w as nat,
        plan.out_h as nat,
        column,
        row,
    );
}

/// The map is sent once it is known and has an extent, both in chunks and as an image, and not
/// again.
pub proof fn law_map_waits_for_its_extent(facts: Option<MapFacts>)
    ensures
        !ready(true, facts),
        ready(false, facts) <==> facts is Some && facts->0.chunks.w > 0 && facts->0.chunks.h > 0
            && facts->0.image_w > 0 && facts->0.image_h > 0,
{
}

} // verus!
