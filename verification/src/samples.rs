//! The marker registry: marks on samples, relations between marks, named
//! regions, and the playback mode that turns them into a stop target.

use crate::units::UNIT;
use std::collections::HashMap;
use vstd::prelude::*;
use vstd::std_specs::iter::IteratorSpec;

verus! {

broadcast use vstd::std_specs::hash::group_hash_axioms;

/// A mark must lie more than this far past the current position, in
/// millionths of the sample's length, to count as the next one.
pub const MIN_DISTANCE: u32 = 5_000;

/// A position marked on a sample. `position` is in millionths of the sample's
/// length; `timestamp` is the time of marking in milliseconds.
#[derive(Debug)]
pub struct SampleMark {
    pub id: usize,
    pub sample_path: String,
    pub sample_name: String,
    pub position: u32,
    pub timestamp: u64,
}

/// What a [`SampleMark`] holds, as plain values.
pub struct MarkView {
    pub id: usize,
    pub path: Seq<char>,
    pub name: Seq<char>,
    pub position: u32,
    pub timestamp: u64,
}

impl View for SampleMark {
    type V = MarkView;

    open spec fn view(&self) -> MarkView {
        MarkView {
            id: self.id,
            path: self.sample_path@,
            name: self.sample_name@,
            position: self.position,
            timestamp: self.timestamp,
        }
    }
}

impl Clone for SampleMark {
    fn clone(&self) -> (r: Self)
        ensures
            r@ == self@,
    {
        SampleMark {
            id: self.id,
            sample_path: self.sample_path.clone(),
            sample_name: self.sample_name.clone(),
            position: self.position,
            timestamp: self.timestamp,
        }
    }
}

/// The marks at which playback from `from_marker` may end.
#[derive(Debug)]
pub struct MarkerRelation {
    pub from_marker: usize,
    pub to_markers: Vec<usize>,
}

/// A named span between two marks, each given by its id.
#[derive(Debug)]
pub struct CustomRegion {
    pub id: usize,
    pub from: usize,
    pub to: usize,
    pub name: String,
}

/// What a [`CustomRegion`] holds, as plain values.
pub struct RegionView {
    pub id: usize,
    pub from: usize,
    pub to: usize,
    pub name: Seq<char>,
}

impl View for CustomRegion {
    type V = RegionView;

    open spec fn view(&self) -> RegionView {
        RegionView { id: self.id, from: self.from, to: self.to, name: self.name@ }
    }
}

impl Clone for CustomRegion {
    fn clone(&self) -> (r: Self)
        ensures
            r@ == self@,
    {
        CustomRegion { id: self.id, from: self.from, to: self.to, name: self.name.clone() }
    }
}

/// Where playback stops.
#[derive(Debug, Clone, Copy, PartialEq, Eq, Structural)]
pub enum PlaybackMode {
    PlayToEnd,
    PlayToNextMarker,
    CustomRegion { region_id: usize },
}

/// The views of a sequence of marks.
pub open spec fn mark_views(marks: Seq<SampleMark>) -> Seq<MarkView> {
    marks.map_values(|m: SampleMark| m@)
}

/// The views of a sequence of regions.
pub open spec fn region_views(regions: Seq<CustomRegion>) -> Seq<RegionView> {
    regions.map_values(|r: CustomRegion| r@)
}

/// `i` is the first index of `s` whose element satisfies `pred`.
pub open spec fn is_first<T>(s: Seq<T>, pred: spec_fn(T) -> bool, i: int) -> bool {
    &&& 0 <= i < s.len()
    &&& pred(s[i])
    &&& forall|j: int| 0 <= j < i ==> !pred(#[trigger] s[j])
}

/// The first index of `s` whose element satisfies `pred`, if there is one.
pub open spec fn first_where<T>(s: Seq<T>, pred: spec_fn(T) -> bool) -> Option<int> {
    if exists|i: int| is_first(s, pred, i) {
        Some(choose|i: int| is_first(s, pred, i))
    } else {
        None
    }
}

/// The first index is unique, so finding one finds [`first_where`].
pub proof fn lemma_first_found<T>(s: Seq<T>, pred: spec_fn(T) -> bool, i: int)
    requires
        is_first(s, pred, i),
    ensures
        first_where(s, pred) == Some(i),
{
    let chosen = choose|k: int| is_first(s, pred, k);
    if chosen < i {
        assert(!pred(s[chosen]));
    } else if i < chosen {
        assert(!pred(s[i]));
    }
}

/// Where no element satisfies `pred`, [`first_where`] finds nothing.
pub proof fn lemma_first_absent<T>(s: Seq<T>, pred: spec_fn(T) -> bool)
    requires
        forall|j: int| 0 <= j < s.len() ==> !pred(#[trigger] s[j]),
    ensures
        first_where(s, pred) == None::<int>,
{
}

/// The first mark with id `id`.
pub open spec fn mark_by_id(marks: Seq<MarkView>, id: usize) -> Option<MarkView> {
    match first_where(marks, |m: MarkView| m.id == id) {
        Some(i) => Some(marks[i]),
        None => None,
    }
}

/// The first region with id `id`.
pub open spec fn region_by_id(regions: Seq<RegionView>, id: usize) -> Option<RegionView> {
    match region_index(regions, id) {
        Some(i) => Some(regions[i]),
        None => None,
    }
}

/// The marks set on the sample named `name`, in their order.
pub open spec fn marks_of(marks: Seq<MarkView>, name: Seq<char>) -> Seq<MarkView> {
    marks.filter(|m: MarkView| m.name == name)
}

/// A mark on the sample named `name` that lies far enough past `current` to
/// stop at.
pub open spec fn lies_ahead(m: MarkView, name: Seq<char>, current: u32) -> bool {
    m.name == name && m.position > current + MIN_DISTANCE
}

/// `p` is the position of the nearest mark ahead of `current` on the sample
/// named `name`.
pub open spec fn is_nearest_ahead(marks: Seq<MarkView>, name: Seq<char>, current: u32, p: u32) -> bool {
    &&& exists|i: int| 0 <= i < marks.len() && lies_ahead(#[trigger] marks[i], name, current) && marks[i].position == p
    &&& forall|i: int| 0 <= i < marks.len() && lies_ahead(#[trigger] marks[i], name, current) ==> p <= marks[i].position
}

/// The position of the nearest mark ahead of `current`, if any mark lies ahead.
pub open spec fn next_marker(marks: Seq<MarkView>, name: Seq<char>, current: u32) -> Option<u32> {
    if exists|p: u32| is_nearest_ahead(marks, name, current, p) {
        Some(choose|p: u32| is_nearest_ahead(marks, name, current, p))
    } else {
        None
    }
}

/// The nearest position is unique, so finding one finds [`next_marker`].
pub proof fn lemma_nearest_found(marks: Seq<MarkView>, name: Seq<char>, current: u32, p: u32)
    requires
        is_nearest_ahead(marks, name, current, p),
    ensures
        next_marker(marks, name, current) == Some(p),
{
    let chosen = choose|q: u32| is_nearest_ahead(marks, name, current, q);
    assert(chosen <= p && p <= chosen);
}

/// Where no mark lies ahead, [`next_marker`] finds nothing.
pub proof fn lemma_nearest_absent(marks: Seq<MarkView>, name: Seq<char>, current: u32)
    requires
        forall|i: int| 0 <= i < marks.len() ==> !lies_ahead(#[trigger] marks[i], name, current),
    ensures
        next_marker(marks, name, current) == None::<u32>,
{
}

/// A mark on the sample named `name` that lies less than `threshold` from
/// `position`.
pub open spec fn is_near(m: MarkView, name: Seq<char>, position: u32, threshold: u32) -> bool {
    m.name == name && (if m.position >= position {
        m.position - position
    } else {
        position - m.position
    }) < threshold
}

/// Whether a region outlives a deletion: that of the region with id `id`, or,
/// with `by_mark`, that of the mark with id `id`, which takes along every
/// region that starts or ends at it.
pub open spec fn region_stays(r: RegionView, id: usize, by_mark: bool) -> bool {
    if by_mark {
        r.from != id && r.to != id
    } else {
        r.id != id
    }
}

/// The regions that outlive a deletion, in their order.
pub open spec fn regions_kept(regions: Seq<RegionView>, id: usize, by_mark: bool) -> Seq<
    RegionView,
> {
    regions.filter(|r: RegionView| region_stays(r, id, by_mark))
}

/// [`regions_kept`] handles the regions one at a time, from the newest.
pub proof fn lemma_regions_kept_step(regions: Seq<RegionView>, id: usize, by_mark: bool)
    ensures
        regions.len() == 0 ==> regions_kept(regions, id, by_mark) == Seq::<RegionView>::empty(),
        regions.len() > 0 && region_stays(regions.last(), id, by_mark) ==> regions_kept(
            regions,
            id,
            by_mark,
        ) == regions_kept(regions.drop_last(), id, by_mark).push(regions.last()),
        regions.len() > 0 && !region_stays(regions.last(), id, by_mark) ==> regions_kept(
            regions,
            id,
            by_mark,
        ) == regions_kept(regions.drop_last(), id, by_mark),
{
    reveal(Seq::filter);
    if regions.len() == 0 {
        assert(regions_kept(regions, id, by_mark) =~= Seq::<RegionView>::empty());
    }
}

/// The character for the decimal digit `d`.
pub open spec fn digit_char(d: int) -> char {
    if d == 0 {
        '0'
    } else if d == 1 {
        '1'
    } else if d == 2 {
        '2'
    } else if d == 3 {
        '3'
    } else if d == 4 {
        '4'
    } else if d == 5 {
        '5'
    } else if d == 6 {
        '6'
    } else if d == 7 {
        '7'
    } else if d == 8 {
        '8'
    } else {
        '9'
    }
}

/// `n` in decimal, without leading zeros.
pub open spec fn decimal(n: nat) -> Seq<char>
    decreases n,
{
    if n < 10 {
        seq![digit_char(n as int)]
    } else {
        decimal(n / 10).push(digit_char((n % 10) as int))
    }
}

/// The name that a region between the marks `from` and `to` is created with:
/// the text `Region `, `from` in decimal, an arrow between two spaces, and `to`
/// in decimal.
pub open spec fn region_label(from: usize, to: usize) -> Seq<char> {
    "Region "@ + decimal(from as nat) + " \u{2192} "@ + decimal(to as nat)
}

/// The text of one decimal digit.
fn digit_text(d: usize) -> (text: &'static str)
    requires
        d < 10,
    ensures
        text@ == seq![digit_char(d as int)],
{
    proof {
        reveal_strlit("0");
        reveal_strlit("1");
        reveal_strlit("2");
        reveal_strlit("3");
        reveal_strlit("4");
        reveal_strlit("5");
        reveal_strlit("6");
        reveal_strlit("7");
        reveal_strlit("8");
        reveal_strlit("9");
    }
    let text = if d == 0 {
        "0"
    } else if d == 1 {
        "1"
    } else if d == 2 {
        "2"
    } else if d == 3 {
        "3"
    } else if d == 4 {
        "4"
    } else if d == 5 {
        "5"
    } else if d == 6 {
        "6"
    } else if d == 7 {
        "7"
    } else if d == 8 {
        "8"
    } else {
        "9"
    };
    assert(text@ =~= seq![digit_char(d as int)]);
    text
}

/// Writes `n` in decimal.
pub fn decimal_text(n: usize) -> (text: String)
    ensures
        text@ == decimal(n as nat),
    decreases n,
{
    if n < 10 {
        String::from_str(digit_text(n))
    } else {
        let mut text = decimal_text(n / 10);
        text.append(digit_text(n % 10));
        assert(text@ =~= decimal(n as nat));
        text
    }
}

/// Writes the name of a new region.
fn label_region(from: usize, to: usize) -> (name: String)
    ensures
        name@ == region_label(from, to),
{
    let mut name = String::from_str("Region ");
    let first = decimal_text(from);
    name.append(first.as_str());
    name.append(" \u{2192} ");
    let second = decimal_text(to);
    name.append(second.as_str());
    assert(name@ =~= region_label(from, to));
    name
}

/// The relations as plain values: for each mark that starts a relation, the
/// marks the relation may end at.
pub open spec fn ends_of(relations: Map<usize, Vec<usize>>) -> Map<usize, Seq<usize>> {
    relations.map_values(|ends: Vec<usize>| ends@)
}

/// The relations that are left when the mark with id `gone` is deleted: the
/// relation that starts from it leaves, and it leaves the ends of the others.
pub open spec fn relations_without(relations: Map<usize, Seq<usize>>, gone: usize) -> Map<
    usize,
    Seq<usize>,
> {
    Map::new(
        |from: usize| relations.contains_key(from) && from != gone,
        |from: usize| ids_without(relations[from], gone),
    )
}

/// A list of mark ids with every occurrence of `gone` taken out.
pub open spec fn ids_without(ids: Seq<usize>, gone: usize) -> Seq<usize> {
    ids.filter(|t: usize| t != gone)
}

/// The position of the first mark on the sample named `name` that carries the
/// id `to`.
pub open spec fn region_end(marks: Seq<MarkView>, name: Seq<char>, to: usize) -> Option<u32> {
    match first_where(marks, |m: MarkView| m.name == name && m.id == to) {
        Some(i) => Some(marks[i].position),
        None => None,
    }
}

/// [`ids_without`] handles a list one id at a time, from its end.
pub proof fn lemma_ids_without_step(ids: Seq<usize>, gone: usize)
    ensures
        ids.len() == 0 ==> ids_without(ids, gone) == Seq::<usize>::empty(),
        ids.len() > 0 && ids.last() != gone ==> ids_without(ids, gone) == ids_without(
            ids.drop_last(),
            gone,
        ).push(ids.last()),
        ids.len() > 0 && ids.last() == gone ==> ids_without(ids, gone) == ids_without(
            ids.drop_last(),
            gone,
        ),
{
    reveal(Seq::filter);
    if ids.len() == 0 {
        assert(ids_without(ids, gone) =~= Seq::<usize>::empty());
    }
}

/// The index of the first mark on the sample named `name` that lies less than
/// `threshold` from `position`.
pub open spec fn near_mark(
    marks: Seq<MarkView>,
    name: Seq<char>,
    position: u32,
    threshold: u32,
) -> Option<int> {
    first_where(marks, |m: MarkView| is_near(m, name, position, threshold))
}

/// The index of the first region with id `id`.
pub open spec fn region_index(regions: Seq<RegionView>, id: usize) -> Option<int> {
    first_where(regions, |r: RegionView| r.id == id)
}

/// The stop target for playback of the sample named `name` from `current`:
/// none when playing to the end; the nearest mark ahead when playing to the
/// next marker; for a region, the position of the first of the sample's marks
/// that carries the id of the region's end, and none where the region or that
/// mark is missing.
pub open spec fn playback_target(
    marks: Seq<MarkView>,
    regions: Seq<RegionView>,
    mode: PlaybackMode,
    name: Seq<char>,
    current: u32,
) -> Option<u32> {
    match mode {
        PlaybackMode::PlayToEnd => None,
        PlaybackMode::PlayToNextMarker => next_marker(marks, name, current),
        PlaybackMode::CustomRegion { region_id } => match region_by_id(regions, region_id) {
            Some(region) => region_end(marks, name, region.to),
            None => None,
        },
    }
}

/// The registry of marks, relations and regions, and the active playback mode.
pub struct SamplesManager {
    marks: Vec<SampleMark>,
    next_id: usize,
    relations: HashMap<usize, Vec<usize>>,
    pub playback_mode: PlaybackMode,
    regions: Vec<CustomRegion>,
    next_region_id: usize,
}

impl SamplesManager {
    /// The marks, in the order in which they were set.
    pub closed spec fn marks(&self) -> Seq<MarkView> {
        mark_views(self.marks@)
    }

    /// The regions, in the order in which they were created.
    pub closed spec fn regions(&self) -> Seq<RegionView> {
        region_views(self.regions@)
    }

    /// The relations: for each mark that starts one, the marks it may end at.
    pub closed spec fn relations(&self) -> Map<usize, Seq<usize>> {
        ends_of(self.relations@)
    }

    /// The active playback mode.
    pub closed spec fn mode(&self) -> PlaybackMode {
        self.playback_mode
    }

    /// The id that the next mark gets.
    pub closed spec fn next_mark_id(&self) -> usize {
        self.next_id
    }

    /// The id that the next region gets.
    pub closed spec fn next_region(&self) -> usize {
        self.next_region_id
    }

    /// The stop target that the registry gives for `name` at `current`.
    pub open spec fn target(&self, name: Seq<char>, current: u32) -> Option<u32> {
        playback_target(self.marks(), self.regions(), self.mode(), name, current)
    }

    /// An empty registry that plays to the end; ids start at 1.
    pub fn new() -> (r: Self)
        ensures
            r.marks() == Seq::<MarkView>::empty(),
            r.regions() == Seq::<RegionView>::empty(),
            r.relations() == Map::<usize, Seq<usize>>::empty(),
            r.mode() == PlaybackMode::PlayToEnd,
            r.next_mark_id() == 1,
            r.next_region() == 1,
    {
        let r = SamplesManager {
            marks: Vec::new(),
            next_id: 1,
            relations: HashMap::new(),
            playback_mode: PlaybackMode::PlayToEnd,
            regions: Vec::new(),
            next_region_id: 1,
        };
        assert(r.marks() =~= Seq::<MarkView>::empty());
        assert(r.regions() =~= Seq::<RegionView>::empty());
        assert(r.relations() =~= Map::<usize, Seq<usize>>::empty());
        r
    }

    /// The id that the next mark gets.
    pub fn peek_mark_id(&self) -> (id: usize)
        ensures
            id == self.next_mark_id(),
    {
        self.next_id
    }

    /// The id that the next region gets.
    pub fn peek_region_id(&self) -> (id: usize)
        ensures
            id == self.next_region(),
    {
        self.next_region_id
    }

    /// Sets a mark at `position` on the sample, under the next free id, with
    /// `timestamp` as its time of marking.
    pub fn mark_current_position(
        &mut self,
        sample_path: &str,
        sample_name: &str,
        position: u32,
        timestamp: u64,
    )
        requires
            old(self).next_mark_id() < usize::MAX,
        ensures
            final(self).marks() == old(self).marks().push(
                MarkView {
                    id: old(self).next_mark_id(),
                    path: sample_path@,
                    name: sample_name@,
                    position,
                    timestamp,
                },
            ),
            final(self).next_mark_id() == old(self).next_mark_id() + 1,
            final(self).regions() == old(self).regions(),
            final(self).relations() == old(self).relations(),
            final(self).next_region() == old(self).next_region(),
            final(self).mode() == old(self).mode(),
    {
        let id = self.next_id;
        self.next_id = id + 1;
        let mark = SampleMark {
            id,
            sample_path: sample_path.to_owned(),
            sample_name: sample_name.to_owned(),
            position,
            timestamp,
        };
        self.marks.push(mark);
        assert(self.marks() =~= old(self).marks().push(mark@));
    }

    /// A copy of every mark.
    pub fn get_marks(&self) -> (r: Vec<SampleMark>)
        ensures
            mark_views(r@) == self.marks(),
    {
        let mut out: Vec<SampleMark> = Vec::new();
        let mut i: usize = 0;
        while i < self.marks.len()
            invariant
                i <= self.marks@.len(),
                out@.len() == i,
                forall|k: int| 0 <= k < i ==> out@[k]@ == self.marks@[k]@,
            decreases self.marks@.len() - i,
        {
            out.push(self.marks[i].clone());
            i += 1;
        }
        assert(mark_views(out@) =~= self.marks());
        out
    }

    /// A copy of every mark on the sample named `sample_name`, in their order.
    pub fn get_marks_for_sample(&self, sample_name: &str) -> (r: Vec<SampleMark>)
        ensures
            mark_views(r@) == marks_of(self.marks(), sample_name@),
    {
        let name = sample_name.to_owned();
        let ghost pred = |m: MarkView| m.name == sample_name@;
        let ghost all = self.marks();
        let mut out: Vec<SampleMark> = Vec::new();
        let mut i: usize = 0;
        proof {
            reveal(Seq::filter);
            assert(all.take(0) =~= Seq::<MarkView>::empty());
            assert(mark_views(out@) =~= all.take(0).filter(pred));
        }
        while i < self.marks.len()
            invariant
                i <= self.marks@.len(),
                all == self.marks(),
                all.len() == self.marks@.len(),
                name@ == sample_name@,
                pred == (|m: MarkView| m.name == sample_name@),
                mark_views(out@) == all.take(i as int).filter(pred),
            decreases self.marks@.len() - i,
        {
            proof {
                reveal(Seq::filter);
                assert(all.take(i + 1).drop_last() =~= all.take(i as int));
                assert(all.take(i + 1).last() == self.marks@[i as int]@);
            }
            if self.marks[i].sample_name == name {
                let ghost before = out@;
                out.push(self.marks[i].clone());
                assert(mark_views(out@) =~= mark_views(before).push(self.marks@[i as int]@));
            }
            i += 1;
        }
        assert(all.take(i as int) =~= all);
        out
    }

    /// Removes every mark, relation and region and plays to the end again.
    /// Ids are not handed out anew.
    pub fn clear_marks(&mut self)
        ensures
            final(self).marks() == Seq::<MarkView>::empty(),
            final(self).regions() == Seq::<RegionView>::empty(),
            final(self).relations() == Map::<usize, Seq<usize>>::empty(),
            final(self).mode() == PlaybackMode::PlayToEnd,
            final(self).next_mark_id() == old(self).next_mark_id(),
            final(self).next_region() == old(self).next_region(),
    {
        self.marks.clear();
        self.relations.clear();
        self.regions.clear();
        self.playback_mode = PlaybackMode::PlayToEnd;
        assert(self.marks() =~= Seq::<MarkView>::empty());
        assert(self.regions() =~= Seq::<RegionView>::empty());
        assert(self.relations() =~= Map::<usize, Seq<usize>>::empty());
    }

    /// Moves the mark at `index` to `new_position`, held at the end of the
    /// sample. An index without a mark changes nothing.
    pub fn update_mark_position(&mut self, index: usize, new_position: u32)
        ensures
            index < old(self).marks().len() ==> final(self).marks() == old(self).marks().update(
                index as int,
                MarkView {
                    position: if new_position > UNIT {
                        UNIT
                    } else {
                        new_position
                    },
                    ..old(self).marks()[index as int]
                },
            ),
            index >= old(self).marks().len() ==> final(self).marks() == old(self).marks(),
            final(self).regions() == old(self).regions(),
            final(self).relations() == old(self).relations(),
            final(self).next_mark_id() == old(self).next_mark_id(),
            final(self).next_region() == old(self).next_region(),
            final(self).mode() == old(self).mode(),
    {
        if index < self.marks.len() {
            let held = if new_position > UNIT {
                UNIT
            } else {
                new_position
            };
            self.marks[index].position = held;
            assert(self.marks() =~= old(self).marks().update(
                index as int,
                MarkView { position: held, ..old(self).marks()[index as int] },
            ));
        }
    }

    /// The index of the first mark on the sample named `sample_name` that
    /// lies less than `threshold` from `position`.
    pub fn find_mark_near(&self, sample_name: &str, position: u32, threshold: u32) -> (r: Option<
        usize,
    >)
        ensures
            r matches Some(i) ==> near_mark(self.marks(), sample_name@, position, threshold)
                == Some(i as int),
            r is None ==> near_mark(self.marks(), sample_name@, position, threshold) is None,
    {
        let name = sample_name.to_owned();
        let ghost pred = |m: MarkView| is_near(m, sample_name@, position, threshold);
        let mut i: usize = 0;
        while i < self.marks.len()
            invariant
                i <= self.marks@.len(),
                self.marks().len() == self.marks@.len(),
                name@ == sample_name@,
                pred == (|m: MarkView| is_near(m, sample_name@, position, threshold)),
                forall|j: int| 0 <= j < i ==> !pred(#[trigger] self.marks()[j]),
            decreases self.marks@.len() - i,
        {
            let mark = &self.marks[i];
            let gap: u32 = if mark.position >= position {
                mark.position - position
            } else {
                position - mark.position
            };
            assert(self.marks()[i as int] == mark@);
            if mark.sample_name == name && gap < threshold {
                proof {
                    lemma_first_found(self.marks(), pred, i as int);
                }
                return Some(i);
            }
            i += 1;
        }
        proof {
            lemma_first_absent(self.marks(), pred);
        }
        None
    }

    /// A copy of the first mark with id `id`.
    pub fn get_mark_by_id(&self, id: usize) -> (r: Option<SampleMark>)
        ensures
            r matches Some(mark) ==> mark_by_id(self.marks(), id) == Some(mark@),
            r is None ==> mark_by_id(self.marks(), id) is None,
    {
        let ghost pred = |m: MarkView| m.id == id;
        let mut i: usize = 0;
        while i < self.marks.len()
            invariant
                i <= self.marks@.len(),
                self.marks().len() == self.marks@.len(),
                pred == (|m: MarkView| m.id == id),
                forall|j: int| 0 <= j < i ==> !pred(#[trigger] self.marks()[j]),
            decreases self.marks@.len() - i,
        {
            assert(self.marks()[i as int] == self.marks@[i as int]@);
            if self.marks[i].id == id {
                proof {
                    lemma_first_found(self.marks(), pred, i as int);
                }
                return Some(self.marks[i].clone());
            }
            i += 1;
        }
        proof {
            lemma_first_absent(self.marks(), pred);
        }
        None
    }

    /// Sets the playback mode.
    pub fn set_playback_mode(&mut self, mode: PlaybackMode)
        ensures
            final(self).mode() == mode,
            final(self).marks() == old(self).marks(),
            final(self).regions() == old(self).regions(),
            final(self).relations() == old(self).relations(),
            final(self).next_mark_id() == old(self).next_mark_id(),
            final(self).next_region() == old(self).next_region(),
    {
        self.playback_mode = mode;
    }

    /// The playback mode.
    pub fn get_playback_mode(&self) -> (mode: PlaybackMode)
        ensures
            mode == self.mode(),
    {
        self.playback_mode
    }
}

impl Clone for MarkerRelation {
    fn clone(&self) -> (r: Self)
        ensures
            r.from_marker == self.from_marker,
            r.to_markers@ == self.to_markers@,
    {
        MarkerRelation { from_marker: self.from_marker, to_markers: copy_ids(&self.to_markers) }
    }
}

/// The marks that start a relation, each once, in no particular order.
fn relation_starts(relations: &HashMap<usize, Vec<usize>>) -> (starts: Vec<usize>)
    ensures
        starts@.no_duplicates(),
        starts@.to_set() == relations@.dom(),
{
    let ghost all: Seq<usize> = relations.keys().remaining().unref();
    let mut starts: Vec<usize> = Vec::new();
    for from in it: relations.keys()
        invariant
            it.seq().unref() == all,
            starts@.len() == it.index(),
            starts@ =~= all.take(it.index() as int),
    {
        starts.push(*from);
    }
    assert(starts@ =~= all);
    starts
}

/// A copy of a list of mark ids.
fn copy_ids(ids: &Vec<usize>) -> (r: Vec<usize>)
    ensures
        r@ == ids@,
{
    let mut out: Vec<usize> = Vec::new();
    let mut i: usize = 0;
    while i < ids.len()
        invariant
            i <= ids@.len(),
            out@ == ids@.take(i as int),
        decreases ids@.len() - i,
    {
        out.push(ids[i]);
        assert(out@ =~= ids@.take(i + 1));
        i += 1;
    }
    assert(ids@.take(i as int) =~= ids@);
    out
}

/// Removes every occurrence of `gone` from `ids`.
fn drop_id(ids: &mut Vec<usize>, gone: usize)
    ensures
        final(ids)@ == ids_without(old(ids)@, gone),
{
    let ghost before = ids@;
    let ghost mut seen: int = 0;
    let mut i: usize = 0;
    proof {
        lemma_ids_without_step(before.take(0), gone);
        assert(ids@ =~= ids_without(before.take(0), gone) + before.skip(0));
    }
    while i < ids.len()
        invariant
            before == old(ids)@,
            0 <= seen <= before.len(),
            i == ids_without(before.take(seen), gone).len(),
            ids@ == ids_without(before.take(seen), gone) + before.skip(seen),
        decreases before.len() - seen,
    {
        proof {
            lemma_ids_without_step(before.take(seen + 1), gone);
            assert(ids@[i as int] == before[seen]);
            assert(before.take(seen + 1).drop_last() =~= before.take(seen));
            assert(before.take(seen + 1).last() == before[seen]);
            assert(before.skip(seen).skip(1) =~= before.skip(seen + 1));
        }
        if ids[i] == gone {
            ids.remove(i);
            assert(ids@ =~= ids_without(before.take(seen + 1), gone) + before.skip(seen + 1));
        } else {
            assert(ids@ =~= ids_without(before.take(seen + 1), gone) + before.skip(seen + 1));
            i += 1;
        }
        proof {
            seen = seen + 1;
        }
    }
    proof {
        assert(seen == before.len()) by {
            assert(ids@.len() == i + (before.len() - seen));
        }
        assert(before.take(seen) =~= before);
        assert(before.skip(seen) =~= Seq::<usize>::empty());
        assert(ids@ =~= ids_without(before, gone));
    }
}

impl SamplesManager {
    /// Records that playback from the mark `from_marker` may end at
    /// `to_markers`, in place of what was recorded for that mark before.
    pub fn add_relation(&mut self, from_marker: usize, to_markers: Vec<usize>)
        ensures
            final(self).relations() == old(self).relations().insert(from_marker, to_markers@),
            final(self).marks() == old(self).marks(),
            final(self).regions() == old(self).regions(),
            final(self).mode() == old(self).mode(),
            final(self).next_mark_id() == old(self).next_mark_id(),
            final(self).next_region() == old(self).next_region(),
    {
        self.relations.insert(from_marker, to_markers);
        assert(self.relations() =~= old(self).relations().insert(from_marker, to_markers@));
    }

    /// The marks at which playback from `from_marker` may end; none where
    /// nothing is recorded for it.
    pub fn get_end_markers_for(&self, from_marker: usize) -> (r: Vec<usize>)
        ensures
            r@ == if self.relations().contains_key(from_marker) {
                self.relations()[from_marker]
            } else {
                Seq::<usize>::empty()
            },
    {
        match self.relations.get(&from_marker) {
            Some(ends) => copy_ids(ends),
            None => Vec::new(),
        }
    }

    /// Creates a region between the marks `from` and `to` under the next free
    /// region id and returns that id.
    pub fn create_region(&mut self, from: usize, to: usize) -> (id: usize)
        requires
            old(self).next_region() < usize::MAX,
        ensures
            id == old(self).next_region(),
            final(self).next_region() == id + 1,
            final(self).regions() == old(self).regions().push(
                RegionView { id, from, to, name: region_label(from, to) },
            ),
            final(self).marks() == old(self).marks(),
            final(self).relations() == old(self).relations(),
            final(self).mode() == old(self).mode(),
            final(self).next_mark_id() == old(self).next_mark_id(),
    {
        let id = self.next_region_id;
        self.next_region_id = id + 1;
        let region = CustomRegion { id, from, to, name: label_region(from, to) };
        self.regions.push(region);
        assert(self.regions() =~= old(self).regions().push(region@));
        id
    }

    /// A copy of every region.
    pub fn get_regions(&self) -> (r: Vec<CustomRegion>)
        ensures
            region_views(r@) == self.regions(),
    {
        let mut out: Vec<CustomRegion> = Vec::new();
        let mut i: usize = 0;
        while i < self.regions.len()
            invariant
                i <= self.regions@.len(),
                out@.len() == i,
                forall|k: int| 0 <= k < i ==> out@[k]@ == self.regions@[k]@,
            decreases self.regions@.len() - i,
        {
            out.push(self.regions[i].clone());
            i += 1;
        }
        assert(region_views(out@) =~= self.regions());
        out
    }

    /// A copy of the first region with id `id`.
    pub fn get_region_by_id(&self, id: usize) -> (r: Option<CustomRegion>)
        ensures
            r matches Some(region) ==> region_by_id(self.regions(), id) == Some(region@),
            r is None ==> region_by_id(self.regions(), id) is None,
    {
        let ghost pred = |r: RegionView| r.id == id;
        let mut i: usize = 0;
        while i < self.regions.len()
            invariant
                i <= self.regions@.len(),
                self.regions().len() == self.regions@.len(),
                pred == (|r: RegionView| r.id == id),
                forall|j: int| 0 <= j < i ==> !pred(#[trigger] self.regions()[j]),
            decreases self.regions@.len() - i,
        {
            assert(self.regions()[i as int] == self.regions@[i as int]@);
            if self.regions[i].id == id {
                proof {
                    lemma_first_found(self.regions(), pred, i as int);
                }
                return Some(self.regions[i].clone());
            }
            i += 1;
        }
        proof {
            lemma_first_absent(self.regions(), pred);
        }
        None
    }

    /// Removes the regions that a deletion takes along: that of the region
    /// with id `id`, or, with `by_mark`, that of the mark with id `id`.
    fn retain_regions(&mut self, id: usize, by_mark: bool)
        ensures
            final(self).regions() == regions_kept(old(self).regions(), id, by_mark),
            final(self).marks() == old(self).marks(),
            final(self).relations() == old(self).relations(),
            final(self).mode() == old(self).mode(),
            final(self).next_mark_id() == old(self).next_mark_id(),
            final(self).next_region() == old(self).next_region(),
    {
        let ghost before = self.regions();
        let ghost mut seen: int = 0;
        let mut i: usize = 0;
        proof {
            lemma_regions_kept_step(before.take(0), id, by_mark);
            assert(self.regions() =~= regions_kept(before.take(0), id, by_mark) + before.skip(0));
        }
        while i < self.regions.len()
            invariant
                before == old(self).regions(),
                0 <= seen <= before.len(),
                self.regions().len() == self.regions@.len(),
                i == regions_kept(before.take(seen), id, by_mark).len(),
                self.regions() == regions_kept(before.take(seen), id, by_mark) + before.skip(seen),
                self.marks == old(self).marks,
                self.relations == old(self).relations,
                self.playback_mode == old(self).playback_mode,
                self.next_id == old(self).next_id,
                self.next_region_id == old(self).next_region_id,
            decreases before.len() - seen,
        {
            let ghost full = self.regions();
            proof {
                lemma_regions_kept_step(before.take(seen + 1), id, by_mark);
                assert(full[i as int] == before[seen]);
                assert(full[i as int] == self.regions@[i as int]@);
                assert(before.take(seen + 1).drop_last() =~= before.take(seen));
                assert(before.take(seen + 1).last() == before[seen]);
                assert(before.skip(seen).skip(1) =~= before.skip(seen + 1));
            }
            let region = &self.regions[i];
            let stays = if by_mark {
                region.from != id && region.to != id
            } else {
                region.id != id
            };
            if stays {
                assert(self.regions() =~= regions_kept(before.take(seen + 1), id, by_mark)
                    + before.skip(seen + 1));
                i += 1;
            } else {
                self.regions.remove(i);
                assert(self.regions() =~= full.remove(i as int));
                assert(self.regions() =~= regions_kept(before.take(seen + 1), id, by_mark)
                    + before.skip(seen + 1));
            }
            proof {
                seen = seen + 1;
            }
        }
        proof {
            assert(seen == before.len()) by {
                assert(self.regions().len() == i + (before.len() - seen));
            }
            assert(before.take(seen) =~= before);
            assert(before.skip(seen) =~= Seq::<RegionView>::empty());
            assert(self.regions() =~= regions_kept(before, id, by_mark));
        }
    }

    /// Deletes every region with id `id`. Where that region was the active
    /// one, playback goes to the end again.
    pub fn delete_region(&mut self, id: usize)
        ensures
            final(self).regions() == regions_kept(old(self).regions(), id, false),
            final(self).mode() == if old(self).mode() == (PlaybackMode::CustomRegion {
                region_id: id,
            }) {
                PlaybackMode::PlayToEnd
            } else {
                old(self).mode()
            },
            final(self).marks() == old(self).marks(),
            final(self).relations() == old(self).relations(),
            final(self).next_mark_id() == old(self).next_mark_id(),
            final(self).next_region() == old(self).next_region(),
    {
        self.retain_regions(id, false);
        if let PlaybackMode::CustomRegion { region_id } = self.playback_mode {
            if region_id == id {
                self.playback_mode = PlaybackMode::PlayToEnd;
            }
        }
    }

    /// Gives the first region with id `id` the name `new_name`.
    pub fn rename_region(&mut self, id: usize, new_name: String)
        ensures
            final(self).regions() == match region_index(old(self).regions(), id) {
                Some(i) => old(self).regions().update(
                    i,
                    RegionView { name: new_name@, ..old(self).regions()[i] },
                ),
                None => old(self).regions(),
            },
            final(self).marks() == old(self).marks(),
            final(self).relations() == old(self).relations(),
            final(self).mode() == old(self).mode(),
            final(self).next_mark_id() == old(self).next_mark_id(),
            final(self).next_region() == old(self).next_region(),
    {
        let ghost pred = |r: RegionView| r.id == id;
        let mut i: usize = 0;
        while i < self.regions.len()
            invariant
                i <= self.regions@.len(),
                *self == *old(self),
                self.regions().len() == self.regions@.len(),
                pred == (|r: RegionView| r.id == id),
                forall|j: int| 0 <= j < i ==> !pred(#[trigger] self.regions()[j]),
            decreases self.regions@.len() - i,
        {
            assert(self.regions()[i as int] == self.regions@[i as int]@);
            if self.regions[i].id == id {
                proof {
                    lemma_first_found(self.regions(), pred, i as int);
                }
                self.regions[i].name = new_name;
                assert(self.regions() =~= old(self).regions().update(
                    i as int,
                    RegionView { name: new_name@, ..old(self).regions()[i as int] },
                ));
                return ;
            }
            i += 1;
        }
        proof {
            lemma_first_absent(self.regions(), pred);
        }
    }

    /// The position at which playback of the sample named `sample_name` from
    /// `current_pos` is to stop, if the playback mode sets one.
    pub fn get_playback_target(&self, current_pos: u32, sample_name: &str) -> (r: Option<u32>)
        ensures
            r == self.target(sample_name@, current_pos),
    {
        let name = sample_name.to_owned();
        match self.playback_mode {
            PlaybackMode::PlayToEnd => None,
            PlaybackMode::PlayToNextMarker => {
                let mut best: Option<u32> = None;
                let ghost mut witness: int = 0;
                let mut i: usize = 0;
                while i < self.marks.len()
                    invariant
                        i <= self.marks@.len(),
                        self.marks().len() == self.marks@.len(),
                        name@ == sample_name@,
                        best matches Some(p) ==> 0 <= witness < i && lies_ahead(
                            self.marks()[witness],
                            sample_name@,
                            current_pos,
                        ) && self.marks()[witness].position == p,
                        best matches Some(p) ==> forall|k: int|
                            0 <= k < i && lies_ahead(
                                #[trigger] self.marks()[k],
                                sample_name@,
                                current_pos,
                            ) ==> p <= self.marks()[k].position,
                        best is None ==> forall|k: int|
                            0 <= k < i ==> !lies_ahead(
                                #[trigger] self.marks()[k],
                                sample_name@,
                                current_pos,
                            ),
                    decreases self.marks@.len() - i,
                {
                    let mark = &self.marks[i];
                    assert(self.marks()[i as int] == mark@);
                    if mark.sample_name == name && mark.position as u64 > current_pos as u64
                        + MIN_DISTANCE as u64 {
                        let nearer = match best {
                            Some(p) => mark.position < p,
                            None => true,
                        };
                        if nearer {
                            best = Some(mark.position);
                            proof {
                                witness = i as int;
                            }
                        }
                    }
                    i += 1;
                }
                proof {
                    match best {
                        Some(p) => {
                            lemma_nearest_found(self.marks(), sample_name@, current_pos, p);
                        },
                        None => {
                            lemma_nearest_absent(self.marks(), sample_name@, current_pos);
                        },
                    }
                }
                best
            },
            PlaybackMode::CustomRegion { region_id } => {
                match self.get_region_by_id(region_id) {
                    Some(region) => {
                        let to = region.to;
                        let ghost pred = |m: MarkView| m.name == sample_name@ && m.id == to;
                        let mut i: usize = 0;
                        while i < self.marks.len()
                            invariant
                                i <= self.marks@.len(),
                                self.marks().len() == self.marks@.len(),
                                name@ == sample_name@,
                                pred == (|m: MarkView| m.name == sample_name@ && m.id == to),
                                to == region@.to,
                                region_by_id(self.regions(), region_id) == Some(region@),
                                self.mode() == (PlaybackMode::CustomRegion { region_id }),
                                forall|j: int| 0 <= j < i ==> !pred(#[trigger] self.marks()[j]),
                            decreases self.marks@.len() - i,
                        {
                            let mark = &self.marks[i];
                            assert(self.marks()[i as int] == mark@);
                            if mark.sample_name == name && mark.id == to {
                                proof {
                                    lemma_first_found(self.marks(), pred, i as int);
                                }
                                return Some(mark.position);
                            }
                            i += 1;
                        }
                        proof {
                            lemma_first_absent(self.marks(), pred);
                        }
                        None
                    },
                    None => None,
                }
            },
        }
    }

    /// Whether playback of the sample named `sample_name` has reached its stop
    /// target at `current_pos`.
    pub fn should_stop_at(&self, current_pos: u32, sample_name: &str) -> (r: bool)
        ensures
            r == match self.target(sample_name@, current_pos) {
                Some(target) => current_pos >= target,
                None => false,
            },
    {
        match self.get_playback_target(current_pos, sample_name) {
            Some(target) => current_pos >= target,
            None => false,
        }
    }
}

impl SamplesManager {
    /// Takes the mark with id `gone` out of the relations.
    fn prune_relations(&mut self, gone: usize)
        ensures
            final(self).relations() == relations_without(old(self).relations(), gone),
            final(self).marks() == old(self).marks(),
            final(self).regions() == old(self).regions(),
            final(self).mode() == old(self).mode(),
            final(self).next_mark_id() == old(self).next_mark_id(),
            final(self).next_region() == old(self).next_region(),
    {
        self.relations.remove(&gone);
        let ghost rest = self.relations@;
        assert(rest =~= old(self).relations@.remove(gone));
        let starts = relation_starts(&self.relations);
        let mut i: usize = 0;
        while i < starts.len()
            invariant
                i <= starts@.len(),
                starts@.no_duplicates(),
                starts@.to_set() == rest.dom(),
                rest == old(self).relations@.remove(gone),
                self.relations@.dom() == rest.dom(),
                forall|j: int|
                    0 <= j < i ==> (#[trigger] self.relations@[starts@[j]])@ == ids_without(
                        rest[starts@[j]]@,
                        gone,
                    ),
                forall|j: int|
                    i <= j < starts@.len() ==> #[trigger] self.relations@[starts@[j]]
                        == rest[starts@[j]],
                self.marks == old(self).marks,
                self.regions == old(self).regions,
                self.playback_mode == old(self).playback_mode,
                self.next_id == old(self).next_id,
                self.next_region_id == old(self).next_region_id,
            decreases starts@.len() - i,
        {
            let from = starts[i];
            let ghost held = self.relations@;
            assert(starts@.to_set().contains(starts@[i as int]));
            if let Some(mut ends) = self.relations.remove(&from) {
                drop_id(&mut ends, gone);
                self.relations.insert(from, ends);
            }
            assert(self.relations@.dom() =~= rest.dom());
            assert forall|j: int| 0 <= j < starts@.len() && j != i implies #[trigger] self.relations@[starts@[j]]
                == held[starts@[j]] by {
                assert(starts@[j] != starts@[i as int]);
            }
            i += 1;
        }
        proof {
            assert forall|from: usize| #[trigger] rest.contains_key(from) implies self.relations@[from]@
                == ids_without(rest[from]@, gone) by {
                assert(starts@.to_set().contains(from));
                let j = choose|j: int| 0 <= j < starts@.len() && starts@[j] == from;
                assert(self.relations@[starts@[j]]@ == ids_without(rest[starts@[j]]@, gone));
            }
            assert(self.relations() =~= relations_without(old(self).relations(), gone));
        }
    }

    /// Deletes the mark at `index`, every relation that starts from it, its
    /// place among the ends of the other relations, and every region that
    /// starts or ends at it. An index without a mark changes nothing.
    pub fn delete_mark(&mut self, index: usize)
        ensures
            index >= old(self).marks().len() ==> {
                &&& final(self).marks() == old(self).marks()
                &&& final(self).relations() == old(self).relations()
                &&& final(self).regions() == old(self).regions()
            },
            index < old(self).marks().len() ==> {
                let gone = old(self).marks()[index as int].id;
                &&& final(self).marks() == old(self).marks().remove(index as int)
                &&& final(self).relations() == relations_without(old(self).relations(), gone)
                &&& final(self).regions() == regions_kept(old(self).regions(), gone, true)
            },
            final(self).mode() == old(self).mode(),
            final(self).next_mark_id() == old(self).next_mark_id(),
            final(self).next_region() == old(self).next_region(),
    {
        if index < self.marks.len() {
            let removed = self.marks.remove(index);
            let gone = removed.id;
            assert(self.marks() =~= old(self).marks().remove(index as int));
            assert(gone == old(self).marks()[index as int].id);
            self.prune_relations(gone);
            self.retain_regions(gone, true);
        }
    }
}

} // verus!
