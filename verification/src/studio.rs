use vstd::prelude::*;
use vstd::string::*;

use crate::capture::{CaptureEvent, CaptureState};
use crate::state::{Scene, Source, SourceKind, SourceStatus, ThemePreference};

verus! {

// ---------------------------------------------------------------------------
// Labels and status.
// ---------------------------------------------------------------------------

/// The studio status that a capture state shows as.
pub open spec fn status_for(state: CaptureState) -> SourceStatus {
    match state {
        CaptureState::Starting => SourceStatus::Starting,
        CaptureState::Active => SourceStatus::Active,
        CaptureState::Lost => SourceStatus::Lost,
        CaptureState::Stopped => SourceStatus::Stopped,
        CaptureState::Error => SourceStatus::Error,
    }
}

/// The studio status that a capture state shows as.
pub fn status_from_capture(state: CaptureState) -> (status: SourceStatus)
    ensures
        status == status_for(state),
{
    match state {
        CaptureState::Starting => SourceStatus::Starting,
        CaptureState::Active => SourceStatus::Active,
        CaptureState::Lost => SourceStatus::Lost,
        CaptureState::Stopped => SourceStatus::Stopped,
        CaptureState::Error => SourceStatus::Error,
    }
}

/// The name under which a theme is offered.
pub open spec fn theme_name(theme: ThemePreference) -> Seq<char> {
    match theme {
        ThemePreference::Dark => "Dark studio"@,
        ThemePreference::Light => "Light studio"@,
    }
}

/// The name under which a theme is offered.
pub fn theme_label(theme: ThemePreference) -> (label: &'static str)
    ensures
        label@ == theme_name(theme),
{
    match theme {
        ThemePreference::Dark => "Dark studio",
        ThemePreference::Light => "Light studio",
    }
}

// ---------------------------------------------------------------------------
// Sources and the captures that feed them.
// ---------------------------------------------------------------------------

/// A running capture: the source it feeds and, once its first frame arrived,
/// the compositor layer that shows it.
#[derive(Debug, Clone, Copy, PartialEq, Eq, Structural)]
pub struct CaptureLink {
    pub source_id: u64,
    pub layer_index: Option<usize>,
}

/// What the studio must do after a capture event.
#[derive(Debug, Clone, PartialEq, Eq)]
pub enum EventEffect {
    /// No listed source belongs to the capture.
    Unknown,
    /// The source was updated; `layer` names a compositor layer and whether to show it.
    Updated { layer: Option<(usize, bool)> },
    /// The backend handed over a token for restoring its stream; the settings
    /// keep it for screen and window sources and are saved.
    RestoreToken { kind: SourceKind, token: String },
}

/// `i` is the first position of a source with `id`.
pub open spec fn first_source(sources: Seq<Source>, id: u64, i: int) -> bool {
    &&& 0 <= i < sources.len()
    &&& sources[i].id == id
    &&& forall|j: int| 0 <= j < i ==> #[trigger] sources[j].id != id
}

/// No source has `id`.
pub open spec fn no_source(sources: Seq<Source>, id: u64) -> bool {
    forall|j: int| 0 <= j < sources.len() ==> #[trigger] sources[j].id != id
}

/// `i` is the first position of a capture that feeds `id`.
pub open spec fn first_link(links: Seq<CaptureLink>, id: u64, i: int) -> bool {
    &&& 0 <= i < links.len()
    &&& links[i].source_id == id
    &&& forall|j: int| 0 <= j < i ==> #[trigger] links[j].source_id != id
}

/// No capture feeds `id`.
pub open spec fn no_link(links: Seq<CaptureLink>, id: u64) -> bool {
    forall|j: int| 0 <= j < links.len() ==> #[trigger] links[j].source_id != id
}

/// Whether a capture state shows or hides the layer of its source.
pub open spec fn layer_visibility(state: CaptureState, source_visible: bool) -> Option<bool> {
    match state {
        CaptureState::Active => Some(source_visible),
        CaptureState::Lost | CaptureState::Stopped | CaptureState::Error => Some(false),
        CaptureState::Starting => None,
    }
}

/// The layer change that goes with a visibility, where the capture has a layer.
pub open spec fn layer_change(layer_index: Option<usize>, visible: Option<bool>) -> Option<(usize, bool)> {
    match (layer_index, visible) {
        (Some(layer), Some(visible)) => Some((layer, visible)),
        _ => None,
    }
}

/// `after` is `source` with another status.
pub open spec fn with_status(after: Source, source: Source, status: SourceStatus) -> bool {
    &&& after.id == source.id
    &&& after.name == source.name
    &&& after.kind == source.kind
    &&& after.status == status
    &&& after.visible == source.visible
}

/// `after` is `source` with another name.
pub open spec fn with_name(after: Source, source: Source, name: String) -> bool {
    &&& after.id == source.id
    &&& after.name == name
    &&& after.kind == source.kind
    &&& after.status == source.status
    &&& after.visible == source.visible
}

/// `after` is `source` shown or hidden.
pub open spec fn with_visibility(after: Source, source: Source, visible: bool) -> bool {
    &&& after.id == source.id
    &&& after.name == source.name
    &&& after.kind == source.kind
    &&& after.status == source.status
    &&& after.visible == visible
}

/// Position of the first source with `id`.
pub fn find_source(sources: &Vec<Source>, id: u64) -> (found: Option<usize>)
    ensures
        found matches Some(i) ==> first_source(sources@, id, i as int),
        found is None ==> no_source(sources@, id),
{
    let mut i: usize = 0;
    while i < sources.len()
        invariant
            i <= sources@.len(),
            forall|j: int| 0 <= j < i ==> #[trigger] sources@[j].id != id,
        decreases sources@.len() - i,
    {
        if sources[i].id == id {
            return Some(i);
        }
        i += 1;
    }
    None
}

/// Position of the first capture that feeds `id`.
pub fn find_link(links: &Vec<CaptureLink>, id: u64) -> (found: Option<usize>)
    ensures
        found matches Some(i) ==> first_link(links@, id, i as int),
        found is None ==> no_link(links@, id),
{
    let mut i: usize = 0;
    while i < links.len()
        invariant
            i <= links@.len(),
            forall|j: int| 0 <= j < i ==> #[trigger] links@[j].source_id != id,
        decreases links@.len() - i,
    {
        if links[i].source_id == id {
            return Some(i);
        }
        i += 1;
    }
    None
}

/// `after` and `effect` are what an event of the capture `link` makes of the
/// sources `before`: the first source that the capture feeds is updated, the
/// others stay, and the effect names what the compositor and settings must do.
pub open spec fn event_applied(
    before: Seq<Source>,
    after: Seq<Source>,
    link: CaptureLink,
    event: CaptureEvent,
    effect: EventEffect,
) -> bool {
    &&& no_source(before, link.source_id) ==> effect == EventEffect::Unknown && after == before
    &&& forall|i: int| #[trigger]
            first_source(before, link.source_id, i) ==> {
                let source = before[i];
                &&& after.len() == before.len()
                &&& forall|j: int|
                    0 <= j < before.len() && j != i ==> #[trigger] after[j]
                        == before[j]
                &&& match event {
                    CaptureEvent::State(state) => {
                        &&& with_status(after[i], source, status_for(state))
                        &&& effect == EventEffect::Updated {
                            layer: layer_change(
                                link.layer_index,
                                layer_visibility(state, source.visible),
                            ),
                        }
                    },
                    CaptureEvent::Info(info) => {
                        &&& with_name(after[i], source, info.name)
                        &&& effect == EventEffect::Updated { layer: None }
                    },
                    CaptureEvent::RestoreToken(token) => {
                        &&& after[i] == source
                        &&& effect == EventEffect::RestoreToken { kind: source.kind, token }
                    },
                    CaptureEvent::Error(_) => {
                        &&& with_status(after[i], source, SourceStatus::Error)
                        &&& effect == EventEffect::Updated {
                            layer: layer_change(link.layer_index, Some(false)),
                        }
                    },
                }
            }
}

/// Applies an event of the capture `link` to the source that it feeds.
pub fn apply_capture_event(sources: &mut Vec<Source>, link: &CaptureLink, event: CaptureEvent) -> (effect: EventEffect)
    ensures
        event_applied(old(sources)@, final(sources)@, *link, event, effect),
{
    let index = match find_source(sources, link.source_id) {
        Some(index) => index,
        None => {
            return EventEffect::Unknown;
        },
    };
    let ghost before = sources@;
    match event {
        CaptureEvent::State(state) => {
            let mut source = sources.remove(index);
            source.status = status_from_capture(state);
            let visible = match state {
                CaptureState::Active => Some(source.visible),
                CaptureState::Lost | CaptureState::Stopped | CaptureState::Error => Some(false),
                CaptureState::Starting => None,
            };
            sources.insert(index, source);
            let layer = match (link.layer_index, visible) {
                (Some(layer), Some(visible)) => Some((layer, visible)),
                _ => None,
            };
            proof {
                assert forall|j: int| 0 <= j < before.len() && j != index implies #[trigger] sources@[j]
                    == before[j] by {}
            }
            EventEffect::Updated { layer }
        },
        CaptureEvent::Info(info) => {
            let mut source = sources.remove(index);
            source.name = info.name;
            sources.insert(index, source);
            proof {
                assert forall|j: int| 0 <= j < before.len() && j != index implies #[trigger] sources@[j]
                    == before[j] by {}
            }
            EventEffect::Updated { layer: None }
        },
        CaptureEvent::RestoreToken(token) => {
            EventEffect::RestoreToken { kind: sources[index].kind, token }
        },
        CaptureEvent::Error(_) => {
            let mut source = sources.remove(index);
            source.status = SourceStatus::Error;
            sources.insert(index, source);
            let layer = match link.layer_index {
                Some(layer) => Some((layer, false)),
                None => None,
            };
            proof {
                assert forall|j: int| 0 <= j < before.len() && j != index implies #[trigger] sources@[j]
                    == before[j] by {}
            }
            EventEffect::Updated { layer }
        },
    }
}

/// A state event sets the listed source's status to the matching status and
/// tells the compositor what to do with the capture's layer: a capture that is
/// lost, stops or fails hides it; one that becomes active shows it exactly when
/// the source is visible; one that is starting leaves it as it is, as does a
/// capture that has no layer yet.
pub proof fn capture_state_sets_layer_visibility(
    before: Seq<Source>,
    after: Seq<Source>,
    link: CaptureLink,
    state: CaptureState,
    effect: EventEffect,
    i: int,
)
    requires
        event_applied(before, after, link, CaptureEvent::State(state), effect),
        first_source(before, link.source_id, i),
    ensures
        after[i].id == before[i].id,
        after[i].visible == before[i].visible,
        state == CaptureState::Starting ==> after[i].status == SourceStatus::Starting,
        state == CaptureState::Active ==> after[i].status == SourceStatus::Active,
        state == CaptureState::Lost ==> after[i].status == SourceStatus::Lost,
        state == CaptureState::Stopped ==> after[i].status == SourceStatus::Stopped,
        state == CaptureState::Error ==> after[i].status == SourceStatus::Error,
        link.layer_index is None ==> effect == (EventEffect::Updated { layer: None }),
        link.layer_index matches Some(layer) ==> {
            &&& state == CaptureState::Lost ==> effect == (EventEffect::Updated { layer: Some((layer, false)) })
            &&& state == CaptureState::Stopped ==> effect == (EventEffect::Updated { layer: Some((layer, false)) })
            &&& state == CaptureState::Error ==> effect == (EventEffect::Updated { layer: Some((layer, false)) })
            &&& state == CaptureState::Active ==> effect == (EventEffect::Updated {
                layer: Some((layer, before[i].visible)),
            })
            &&& state == CaptureState::Starting ==> effect == (EventEffect::Updated { layer: None })
        },
{
}

/// An error event marks the listed source as failed and hides the capture's layer.
pub proof fn capture_error_hides_layer(
    before: Seq<Source>,
    after: Seq<Source>,
    link: CaptureLink,
    message: String,
    effect: EventEffect,
    i: int,
)
    requires
        event_applied(before, after, link, CaptureEvent::Error(message), effect),
        first_source(before, link.source_id, i),
    ensures
        after[i].status == SourceStatus::Error,
        after[i].visible == before[i].visible,
        link.layer_index is None ==> effect == (EventEffect::Updated { layer: None }),
        link.layer_index matches Some(layer) ==> effect == (EventEffect::Updated { layer: Some((layer, false)) }),
{
}

/// Where a removed capture stood, and the compositor layer it had.
#[derive(Debug, Clone, Copy, PartialEq, Eq, Structural)]
pub struct RemovedCapture {
    pub capture_index: usize,
    pub layer_index: Option<usize>,
}

/// The layer index that `index` becomes once the layer `removed` is taken out.
pub open spec fn shifted_layer(index: Option<usize>, removed: Option<usize>) -> Option<usize> {
    match (index, removed) {
        (Some(layer), Some(gone)) => if layer > gone {
            Some((layer - 1) as usize)
        } else {
            Some(layer)
        },
        _ => index,
    }
}

/// `link` with its layer index renumbered after the layer `removed` is taken out.
pub open spec fn shifted_link(link: CaptureLink, removed: Option<usize>) -> CaptureLink {
    CaptureLink { source_id: link.source_id, layer_index: shifted_layer(link.layer_index, removed) }
}

/// Sources other than those with `id`.
pub open spec fn keeps_other(id: u64) -> spec_fn(Source) -> bool {
    |source: Source| source.id != id
}

/// Drops every source with `id` and the first capture that feeds it; the
/// layer indices of the remaining captures follow the removal of its layer.
pub fn remove_source(sources: &mut Vec<Source>, links: &mut Vec<CaptureLink>, source_id: u64) -> (removed:
    Option<RemovedCapture>)
    ensures
        final(sources)@ == old(sources)@.filter(keeps_other(source_id)),
        no_link(old(links)@, source_id) ==> removed is None && final(links)@ == old(links)@,
        forall|c: int| #[trigger]
            first_link(old(links)@, source_id, c) ==> {
                let gone = old(links)@[c].layer_index;
                &&& removed == Some(RemovedCapture { capture_index: c as usize, layer_index: gone })
                &&& final(links)@.len() == old(links)@.len() - 1
                &&& forall|j: int|
                    0 <= j < final(links)@.len() ==> #[trigger] final(links)@[j] == shifted_link(
                        old(links)@.remove(c)[j],
                        gone,
                    )
            },
{
    let ghost listed = sources@;
    let ghost pred = keeps_other(source_id);
    let mut i: usize = 0;
    let ghost mut k: int = 0;
    while i < sources.len()
        invariant
            pred == keeps_other(source_id),
            listed == old(sources)@,
            0 <= k <= listed.len(),
            i <= sources@.len(),
            i == listed.take(k).filter(pred).len(),
            sources@ == listed.take(k).filter(pred) + listed.skip(k),
        decreases listed.len() - k,
    {
        proof {
            let done = listed.take(k).filter(pred);
            assert(listed.take(k + 1).filter(pred) == if pred(listed[k]) {
                done.push(listed[k])
            } else {
                done
            }) by {
                reveal_with_fuel(Seq::<_>::filter, 1);
                assert(listed.take(k + 1).drop_last() =~= listed.take(k));
            }
            assert(sources@[i as int] == listed[k]);
            assert(listed.skip(k).drop_first() =~= listed.skip(k + 1));
            assert(sources@.remove(i as int) =~= done + listed.skip(k + 1));
            assert(done.push(listed[k]) + listed.skip(k + 1) =~= sources@);
        }
        if sources[i].id == source_id {
            sources.remove(i);
            proof {
                assert(!pred(listed[k]));
                assert(listed.take(k + 1).filter(pred) == listed.take(k).filter(pred));
                assert(sources@ =~= listed.take(k + 1).filter(pred) + listed.skip(k + 1));
            }
        } else {
            proof {
                assert(sources@ =~= listed.take(k + 1).filter(pred) + listed.skip(k + 1));
            }
            i += 1;
        }
        proof {
            k = k + 1;
        }
    }
    proof {
        assert(listed.take(k) =~= listed);
        assert(sources@ =~= listed.filter(pred));
    }
    let capture_index = match find_link(links, source_id) {
        Some(index) => index,
        None => {
            return None;
        },
    };
    let link = links.remove(capture_index);
    let ghost kept = links@;
    if let Some(removed_layer) = link.layer_index {
        let mut j: usize = 0;
        while j < links.len()
            invariant
                link.layer_index == Some(removed_layer),
                j <= links@.len(),
                links@.len() == kept.len(),
                forall|m: int| 0 <= m < j ==> #[trigger] links@[m] == shifted_link(kept[m], link.layer_index),
                forall|m: int| j <= m < links@.len() ==> #[trigger] links@[m] == kept[m],
            decreases kept.len() - j,
        {
            let current = links[j];
            let ghost before = links@;
            if let Some(layer) = current.layer_index {
                if layer > removed_layer {
                    links.set(j, CaptureLink { source_id: current.source_id, layer_index: Some(layer - 1) });
                }
            }
            proof {
                assert(links@[j as int] == shifted_link(kept[j as int], link.layer_index));
                assert forall|m: int| 0 <= m < j + 1 implies #[trigger] links@[m] == shifted_link(
                    kept[m],
                    link.layer_index,
                ) by {
                    if m < j {
                        assert(before[m] == links@[m]);
                    }
                }
            }
            j += 1;
        }
    }
    Some(RemovedCapture { capture_index, layer_index: link.layer_index })
}

/// Shows or hides the first source with `id`; gives the layer of the first
/// capture that feeds it, for the compositor to follow.
pub fn set_source_visibility(
    sources: &mut Vec<Source>,
    links: &Vec<CaptureLink>,
    source_id: u64,
    visible: bool,
) -> (layer: Option<usize>)
    ensures
        no_source(old(sources)@, source_id) ==> final(sources)@ == old(sources)@,
        forall|i: int| #[trigger]
            first_source(old(sources)@, source_id, i) ==> {
                &&& final(sources)@.len() == old(sources)@.len()
                &&& with_visibility(final(sources)@[i], old(sources)@[i], visible)
                &&& forall|j: int|
                    0 <= j < old(sources)@.len() && j != i ==> #[trigger] final(sources)@[j]
                        == old(sources)@[j]
            },
        no_link(links@, source_id) ==> layer is None,
        forall|c: int| #[trigger] first_link(links@, source_id, c) ==> layer == links@[c].layer_index,
{
    if let Some(index) = find_source(sources, source_id) {
        let ghost before = sources@;
        let mut source = sources.remove(index);
        source.visible = visible;
        sources.insert(index, source);
        proof {
            assert forall|j: int| 0 <= j < before.len() && j != index implies #[trigger] sources@[j]
                == before[j] by {}
        }
    }
    match find_link(links, source_id) {
        Some(index) => links[index].layer_index,
        None => None,
    }
}

/// Every source id lies below `next`.
pub open spec fn ids_below(sources: Seq<Source>, next: u64) -> bool {
    forall|j: int| 0 <= j < sources.len() ==> #[trigger] sources[j].id < next
}

/// Lists a new source under the next free id: `Starting` when its capture
/// started, `Error` when it did not.
pub fn add_source(
    sources: &mut Vec<Source>,
    next_source_id: &mut u64,
    name: String,
    kind: SourceKind,
    started: bool,
) -> (id: u64)
    requires
        *old(next_source_id) < u64::MAX,
    ensures
        id == *old(next_source_id),
        *final(next_source_id) == id + 1,
        final(sources)@.len() == old(sources)@.len() + 1,
        final(sources)@.drop_last() == old(sources)@,
        final(sources)@.last() == (Source {
            id,
            name,
            kind,
            status: if started {
                SourceStatus::Starting
            } else {
                SourceStatus::Error
            },
            visible: true,
        }),
        ids_below(old(sources)@, *old(next_source_id)) ==> ids_below(
            final(sources)@,
            *final(next_source_id),
        ),
{
    let id = *next_source_id;
    *next_source_id = id + 1;
    let status = if started {
        SourceStatus::Starting
    } else {
        SourceStatus::Error
    };
    sources.push(Source { id, name, kind, status, visible: true });
    proof {
        assert(sources@.drop_last() =~= old(sources)@);
    }
    id
}

/// Once the compositor drops layer `gone`, the renumbered index of any other
/// layer names the same layer as before.
pub proof fn layer_follows_removal<T>(layers: Seq<T>, gone: usize, index: usize)
    requires
        gone < layers.len(),
        index < layers.len(),
        index != gone,
    ensures
        shifted_layer(Some(index), Some(gone)) matches Some(renumbered) && renumbered < layers.len() - 1
            && layers.remove(gone as int)[renumbered as int] == layers[index as int],
{
}

/// Every capture with a layer names one of `layer_count` layers, and no two
/// captures name the same layer.
pub open spec fn layers_distinct_valid(links: Seq<CaptureLink>, layer_count: nat) -> bool {
    &&& forall|j: int|
        0 <= j < links.len() && #[trigger] links[j].layer_index is Some ==> links[j].layer_index->0
            < layer_count
    &&& forall|i: int, j: int|
        0 <= i < links.len() && 0 <= j < links.len() && i != j && #[trigger] links[i].layer_index is Some
            && #[trigger] links[j].layer_index is Some ==> links[i].layer_index != links[j].layer_index
}

/// The compositor's layers once the layer `gone`, if any, is taken out.
pub open spec fn layers_after_removal<T>(layers: Seq<T>, gone: Option<usize>) -> Seq<T> {
    match gone {
        Some(g) => layers.remove(g as int),
        None => layers,
    }
}

/// When the captures name distinct layers of the compositor, removing capture
/// `c` (as `remove_source` does) and its layer (as `remove_layer` does) leaves the
/// other captures naming distinct layers of the remaining list, each the same
/// layer as before.
pub proof fn layers_stay_distinct_after_removal<T>(
    layers: Seq<T>,
    links: Seq<CaptureLink>,
    remaining: Seq<CaptureLink>,
    c: int,
)
    requires
        0 <= c < links.len(),
        layers_distinct_valid(links, layers.len()),
        remaining.len() == links.len() - 1,
        forall|j: int|
            0 <= j < remaining.len() ==> #[trigger] remaining[j] == shifted_link(
                links.remove(c)[j],
                links[c].layer_index,
            ),
    ensures
        layers_distinct_valid(remaining, layers_after_removal(layers, links[c].layer_index).len()),
        forall|j: int|
            0 <= j < remaining.len() && #[trigger] remaining[j].layer_index is Some ==> {
                &&& remaining[j].source_id == links.remove(c)[j].source_id
                &&& layers_after_removal(layers, links[c].layer_index)[remaining[j].layer_index->0 as int]
                    == layers[links.remove(c)[j].layer_index->0 as int]
            },
{
    let gone = links[c].layer_index;
    let others = links.remove(c);
    let after = layers_after_removal(layers, gone);
    assert forall|j: int| 0 <= j < others.len() implies #[trigger] others[j] == links[if j < c {
        j
    } else {
        j + 1
    }] by {}
    assert forall|j: int|
        0 <= j < remaining.len() && #[trigger] remaining[j].layer_index is Some implies {
            &&& remaining[j].layer_index->0 < after.len()
            &&& remaining[j].source_id == others[j].source_id
            &&& after[remaining[j].layer_index->0 as int] == layers[others[j].layer_index->0 as int]
        } by {
        let m = if j < c {
            j
        } else {
            j + 1
        };
        assert(others[j] == links[m]);
        assert(links[m].layer_index is Some);
        if gone is Some {
            assert(links[c].layer_index is Some);
            assert(links[m].layer_index != links[c].layer_index);
        }
    }
    assert forall|i: int, j: int|
        0 <= i < remaining.len() && 0 <= j < remaining.len() && i != j
            && #[trigger] remaining[i].layer_index is Some && #[trigger] remaining[j].layer_index is Some
        implies remaining[i].layer_index != remaining[j].layer_index by {
        let mi = if i < c {
            i
        } else {
            i + 1
        };
        let mj = if j < c {
            j
        } else {
            j + 1
        };
        assert(others[i] == links[mi]);
        assert(others[j] == links[mj]);
        assert(links[mi].layer_index is Some && links[mj].layer_index is Some);
        assert(links[mi].layer_index != links[mj].layer_index);
        if gone is Some {
            assert(links[c].layer_index is Some);
            assert(links[mi].layer_index != links[c].layer_index);
            assert(links[mj].layer_index != links[c].layer_index);
        }
    }
}

/// What the compositor does with a frame of a capture.
#[derive(Debug, Clone, PartialEq, Eq)]
pub enum FrameLayerStep {
    /// Replace the pixels of the capture's layer.
    Update { layer: usize },
    /// Hide the test layers `hidden`, then add a layer for the capture.
    Add { hidden: Vec<usize> },
}

/// How many test layers (those at positions 1 and 2) a list of `layer_count` layers holds.
pub open spec fn test_layer_count(layer_count: nat) -> nat {
    if layer_count <= 1 {
        0
    } else if layer_count >= 3 {
        2
    } else {
        (layer_count - 1) as nat
    }
}

/// The positions of the test layers in a list of `layer_count` layers.
pub open spec fn test_layers(layer_count: nat) -> Seq<usize> {
    Seq::new(test_layer_count(layer_count), |i: int| (i + 1) as usize)
}

/// The step for a frame of the capture `link` when the compositor holds
/// `layer_count` layers: a capture with a layer updates it; the first frame of
/// a capture hides the test layers, which are only useful before capture starts,
/// and adds a layer.
pub fn frame_layer_step(link: &CaptureLink, layer_count: usize) -> (step: FrameLayerStep)
    ensures
        link.layer_index matches Some(layer) ==> step == (FrameLayerStep::Update { layer }),
        link.layer_index is None ==> (step matches FrameLayerStep::Add { hidden } && hidden@ == test_layers(
            layer_count as nat,
        )),
{
    match link.layer_index {
        Some(layer) => FrameLayerStep::Update { layer },
        None => {
            let mut hidden: Vec<usize> = Vec::new();
            let mut index: usize = 1;
            while index < 3 && index < layer_count
                invariant
                    1 <= index <= 3,
                    index <= layer_count || index == 1,
                    hidden@ =~= Seq::new((index - 1) as nat, |i: int| (i + 1) as usize),
                decreases 3 - index,
            {
                hidden.push(index);
                index += 1;
            }
            assert(hidden@ =~= test_layers(layer_count as nat));
            FrameLayerStep::Add { hidden }
        }
    }
}

// ---------------------------------------------------------------------------
// Scenes.
// ---------------------------------------------------------------------------

/// The character of a decimal digit.
pub open spec fn digit_char(d: nat) -> char {
    if d == 0 {
        '0'
    } else if d == 1 {
        '1'
    } else if d == 2 {
        '2'
    } else if d == 3 {
        '3'
    } else if d == 4 {
        '4'
    } else if d == 5 {
        '5'
    } else if d == 6 {
        '6'
    } else if d == 7 {
        '7'
    } else if d == 8 {
        '8'
    } else {
        '9'
    }
}

/// The decimal numeral of `n`, without leading zeros.
pub open spec fn decimal(n: nat) -> Seq<char>
    decreases n,
{
    if n < 10 {
        seq![digit_char(n)]
    } else {
        decimal(n / 10).push(digit_char(n % 10))
    }
}

/// The numeral of one digit.
fn digit_str(d: usize) -> (s: &'static str)
    requires
        d < 10,
    ensures
        s@ == seq![digit_char(d as nat)],
{
    proof {
        reveal_strlit("0");
        reveal_strlit("1");
        reveal_strlit("2");
        reveal_strlit("3");
        reveal_strlit("4");
        reveal_strlit("5");
        reveal_strlit("6");
        reveal_strlit("7");
        reveal_strlit("8");
        reveal_strlit("9");
    }
    let s = if d == 0 {
        "0"
    } else if d == 1 {
        "1"
    } else if d == 2 {
        "2"
    } else if d == 3 {
        "3"
    } else if d == 4 {
        "4"
    } else if d == 5 {
        "5"
    } else if d == 6 {
        "6"
    } else if d == 7 {
        "7"
    } else if d == 8 {
        "8"
    } else {
        "9"
    };
    assert(s@ =~= seq![digit_char(d as nat)]);
    s
}

/// Appends the decimal numeral of `n`.
fn append_decimal(text: &mut String, n: usize)
    ensures
        final(text)@ == old(text)@ + decimal(n as nat),
    decreases n,
{
    if n >= 10 {
        append_decimal(text, n / 10);
    }
    text.append(digit_str(n % 10));
    proof {
        if n >= 10 {
            assert(decimal(n as nat) == decimal((n / 10) as nat).push(digit_char((n % 10) as nat)));
        }
    }
}

/// The name that a new scene gets: "Scene" and its number.
pub fn scene_name(number: usize) -> (name: String)
    ensures
        name@ == "Scene "@ + decimal(number as nat),
{
    let mut name = String::from_str("Scene ");
    append_decimal(&mut name, number);
    name
}

/// Appends a scene named after its position and selects it.
pub fn add_scene(scenes: &mut Vec<Scene>) -> (selected: usize)
    requires
        old(scenes)@.len() < usize::MAX,
    ensures
        final(scenes)@.len() == old(scenes)@.len() + 1,
        final(scenes)@.drop_last() == old(scenes)@,
        final(scenes)@.last().name@ == "Scene "@ + decimal(final(scenes)@.len()),
        selected == old(scenes)@.len(),
{
    let number: usize = scenes.len() + 1;
    scenes.push(Scene { name: scene_name(number) });
    proof {
        assert(scenes@.drop_last() =~= old(scenes)@);
    }
    scenes.len() - 1
}

/// Removes scene `index` unless it is the last one left; the selection then
/// moves back within the list.
pub fn remove_scene(scenes: &mut Vec<Scene>, index: usize, selected: usize) -> (now_selected: usize)
    ensures
        old(scenes)@.len() > 1 && index < old(scenes)@.len() ==> {
            &&& final(scenes)@ == old(scenes)@.remove(index as int)
            &&& now_selected == if selected < final(scenes)@.len() {
                selected
            } else {
                (final(scenes)@.len() - 1) as usize
            }
        },
        !(old(scenes)@.len() > 1 && index < old(scenes)@.len()) ==> final(scenes)@ == old(scenes)@
            && now_selected == selected,
{
    if scenes.len() > 1 && index < scenes.len() {
        scenes.remove(index);
        let last: usize = scenes.len() - 1;
        if selected < last {
            selected
        } else {
            last
        }
    } else {
        selected
    }
}

/// The scene list never runs empty, and a selection inside it stays inside it.
pub proof fn scenes_stay_selectable(before: Seq<Scene>, after: Seq<Scene>, index: usize, selected: usize, now_selected: usize)
    requires
        before.len() >= 1,
        selected < before.len(),
        before.len() > 1 && index < before.len() ==> {
            &&& after == before.remove(index as int)
            &&& now_selected == if selected < after.len() {
                selected
            } else {
                (after.len() - 1) as usize
            }
        },
        !(before.len() > 1 && index < before.len()) ==> after == before && now_selected == selected,
    ensures
        after.len() >= 1,
        now_selected < after.len(),
{
}

} // verus!
