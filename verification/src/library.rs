//! The library grid's state that is not drawing: the picker entries, the
//! multi-selection and the window of thumbnails kept in memory.

use vstd::prelude::*;

use crate::catalog::RefKind;
use vstd::string::StrSliceExecFns;
use crate::ids::MediaId;

verus! {

/// Filter entries as shown in the kind picker, in order.
#[derive(Copy, Clone, Debug, PartialEq, Eq, Structural)]
pub enum KindFilter {
    All,
    Photos,
    Videos,
    Audio,
}

impl KindFilter {
    /// The entry at a picker index; anything out of range is `All`.
    pub fn from_index(i: i32) -> (k: KindFilter)
        ensures
            k == (if i == 1 {
                KindFilter::Photos
            } else if i == 2 {
                KindFilter::Videos
            } else if i == 3 {
                KindFilter::Audio
            } else {
                KindFilter::All
            }),
    {
        match i {
            1 => KindFilter::Photos,
            2 => KindFilter::Videos,
            3 => KindFilter::Audio,
            _ => KindFilter::All,
        }
    }
}

/// Sort entries as shown in the sort picker, in order.
#[derive(Copy, Clone, Debug, PartialEq, Eq, Structural)]
pub enum SortChoice {
    Date,
    Name,
    Kind,
    Added,
}

impl SortChoice {
    /// The entry at a picker index; anything out of range is `Date`.
    pub fn from_index(i: i32) -> (s: SortChoice)
        ensures
            s == (if i == 1 {
                SortChoice::Name
            } else if i == 2 {
                SortChoice::Kind
            } else if i == 3 {
                SortChoice::Added
            } else {
                SortChoice::Date
            }),
    {
        match i {
            1 => SortChoice::Name,
            2 => SortChoice::Kind,
            3 => SortChoice::Added,
            _ => SortChoice::Date,
        }
    }

    /// Dates and additions read best newest-first; names A to Z.
    pub fn default_descending(self) -> (b: bool)
        ensures
            b == (self == SortChoice::Date || self == SortChoice::Added),
    {
        match self {
            SortChoice::Date | SortChoice::Added => true,
            _ => false,
        }
    }
}

impl KindFilter {
    /// The media kinds the filter lets through; `None` for all.
    pub fn kinds(self) -> (k: Option<Vec<RefKind>>)
        ensures
            match self {
                KindFilter::All => k is None,
                KindFilter::Photos => k matches Some(v) && v@ == seq![RefKind::Photo],
                KindFilter::Videos => k matches Some(v) && v@ == seq![RefKind::Video],
                KindFilter::Audio => k matches Some(v) && v@ == seq![RefKind::Audio],
            },
    {
        match self {
            KindFilter::All => None,
            KindFilter::Photos => Some(vec![RefKind::Photo]),
            KindFilter::Videos => Some(vec![RefKind::Video]),
            KindFilter::Audio => Some(vec![RefKind::Audio]),
        }
    }
}

/// The order a library query lists items in.
#[derive(Copy, Clone, Debug, PartialEq, Eq, Structural)]
pub enum SortKey {
    CapturedAt,
    Name,
    Kind,
    AddedAt,
}

/// The query order for a sort picker entry.
pub open spec fn sort_key(c: SortChoice) -> SortKey {
    match c {
        SortChoice::Date => SortKey::CapturedAt,
        SortChoice::Name => SortKey::Name,
        SortChoice::Kind => SortKey::Kind,
        SortChoice::Added => SortKey::AddedAt,
    }
}

impl SortChoice {
    /// The query order for a picker entry (see `sort_key`).
    pub fn sort(self) -> (k: SortKey)
        ensures
            k == sort_key(self),
    {
        match self {
            SortChoice::Date => SortKey::CapturedAt,
            SortChoice::Name => SortKey::Name,
            SortChoice::Kind => SortKey::Kind,
            SortChoice::Added => SortKey::AddedAt,
        }
    }
}

/// What the library toolbar currently says.
#[derive(Clone, Debug, PartialEq, Eq)]
pub struct ViewState {
    pub search: String,
    pub filter: KindFilter,
    pub sort: SortChoice,
    pub descending: bool,
}

impl Default for ViewState {
    fn default() -> (v: ViewState)
        ensures
            v.search@ == Seq::<char>::empty(),
            v.filter == KindFilter::All,
            v.sort == SortChoice::Date,
            v.descending,
    {
        ViewState { search: String::new(), filter: KindFilter::All, sort: SortChoice::Date, descending: true }
    }
}

/// What the library is asked for: items matching a search text (none
/// when empty), of some kinds (all when `None`), in an order.
#[derive(Clone, Debug, PartialEq, Eq)]
pub struct LibraryQuery {
    pub text: Option<String>,
    pub kinds: Option<Vec<RefKind>>,
    pub sort: SortKey,
    pub descending: bool,
}

impl ViewState {
    /// The query the toolbar stands for. The search text is kept as typed;
    /// an empty one searches for nothing.
    pub fn query(&self) -> (q: LibraryQuery)
        ensures
            self.search@.len() == 0 ==> q.text is None,
            self.search@.len() > 0 ==> (q.text matches Some(t) && t@ == self.search@),
            match self.filter {
                KindFilter::All => q.kinds is None,
                KindFilter::Photos => q.kinds matches Some(v) && v@ == seq![RefKind::Photo],
                KindFilter::Videos => q.kinds matches Some(v) && v@ == seq![RefKind::Video],
                KindFilter::Audio => q.kinds matches Some(v) && v@ == seq![RefKind::Audio],
            },
            q.sort == sort_key(self.sort),
            q.descending == self.descending,
    {
        let text = if self.search.as_str().unicode_len() == 0 {
            None
        } else {
            Some(self.search.clone())
        };
        LibraryQuery { text, kinds: self.filter.kinds(), sort: self.sort.sort(), descending: self.descending }
    }
}

/// Whether `v` holds `x`.
fn holds(v: &Vec<MediaId>, x: MediaId) -> (b: bool)
    ensures
        b == v@.contains(x),
{
    let mut i: usize = 0;
    while i < v.len()
        invariant
            i <= v@.len(),
            forall|k: int| 0 <= k < i ==> v@[k] != x,
        decreases v@.len() - i,
    {
        if v[i] == x {
            return true;
        }
        i = i + 1;
    }
    false
}

/// `v` without any `x`.
fn without(v: &Vec<MediaId>, x: MediaId) -> (r: Vec<MediaId>)
    ensures
        forall|m: MediaId| r@.contains(m) <==> v@.contains(m) && m != x,
{
    let mut r: Vec<MediaId> = Vec::new();
    let mut i: usize = 0;
    while i < v.len()
        invariant
            i <= v@.len(),
            forall|m: MediaId| r@.contains(m) <==> (exists|k: int| 0 <= k < i && v@[k] == m) && m != x,
        decreases v@.len() - i,
    {
        let y = v[i];
        let ghost prev = r@;
        if y != x {
            r.push(y);
        }
        proof {
            assert forall|m: MediaId| r@.contains(m) <==> (exists|k: int| 0 <= k < i + 1 && v@[k] == m) && m != x by {
                if y != x {
                    vstd::seq_lib::lemma_seq_contains_after_push(prev, y, m);
                }
                if m == y {
                    assert(v@[i as int] == m);
                }
                if (exists|k: int| 0 <= k < i + 1 && v@[k] == m) && m != x {
                    let k = choose|k: int| 0 <= k < i + 1 && v@[k] == m;
                    if k < i {
                        assert(exists|k2: int| 0 <= k2 < i && v@[k2] == m);
                    }
                }
            }
        }
        i = i + 1;
    }
    proof {
        assert forall|m: MediaId| r@.contains(m) <==> v@.contains(m) && m != x by {
            if v@.contains(m) {
                let k = choose|k: int| 0 <= k < v@.len() && v@[k] == m;
                assert(exists|k2: int| 0 <= k2 < v@.len() && v@[k2] == m);
            }
        }
    }
    r
}

/// Multi-selection over the ordered grid items.
pub struct GridSelection {
    /// The selected ids; order and repeats carry no meaning.
    pub ids: Vec<MediaId>,
    /// Anchor for shift-range selection, as an index into the current order.
    pub anchor: Option<usize>,
}

impl View for GridSelection {
    type V = Set<MediaId>;

    open spec fn view(&self) -> Set<MediaId> {
        Set::new(|m: MediaId| self.ids@.contains(m))
    }
}

/// The ids at positions `lo..=hi` of the grid order.
pub open spec fn range_ids(ids: Seq<MediaId>, lo: int, hi: int) -> Set<MediaId> {
    Set::new(|m: MediaId| exists|k: int| lo <= k <= hi && 0 <= k < ids.len() && ids[k] == m)
}

/// The ids at the first `n` listed positions that exist.
pub open spec fn hit_ids_upto(ids: Seq<MediaId>, hits: Seq<usize>, n: int) -> Set<MediaId> {
    Set::new(
        |m: MediaId|
            exists|q: int| 0 <= q < n && q < hits.len() && #[trigger] hits[q] < ids.len() && ids[hits[q] as int] == m,
    )
}

/// The ids at the listed positions that exist.
pub open spec fn hit_ids(ids: Seq<MediaId>, hits: Seq<usize>) -> Set<MediaId> {
    hit_ids_upto(ids, hits, hits.len() as int)
}

impl GridSelection {
    /// Nothing selected, no anchor.
    pub fn new() -> (s: GridSelection)
        ensures
            s@ == Set::<MediaId>::empty(),
            s.anchor is None,
    {
        let s = GridSelection { ids: Vec::new(), anchor: None };
        proof {
            assert(s@ =~= Set::<MediaId>::empty());
        }
        s
    }

    pub fn contains(&self, id: MediaId) -> (b: bool)
        ensures
            b == self@.contains(id),
    {
        holds(&self.ids, id)
    }

    fn add(&mut self, id: MediaId)
        ensures
            final(self)@ == old(self)@.insert(id),
            final(self).anchor == old(self).anchor,
    {
        if !holds(&self.ids, id) {
            self.ids.push(id);
        }
        proof {
            assert(final(self)@ =~= old(self)@.insert(id)) by {
                assert(self.ids@.contains(id) ==> true);
                assert forall|m: MediaId| self.ids@.contains(m) <==> old(self).ids@.contains(m) || m == id by {
                    if old(self).ids@.contains(m) {
                        let k = choose|k: int| 0 <= k < old(self).ids@.len() && old(self).ids@[k] == m;
                        assert(self.ids@[k] == m);
                    }
                    if m == id && !old(self).ids@.contains(id) {
                        assert(self.ids@[self.ids@.len() - 1] == id);
                    }
                }
            }
        }
    }

    /// Click semantics: plain replaces, shift extends from the anchor,
    /// toggle (Cmd/Ctrl) flips one item. A click past the end does nothing.
    pub fn click(&mut self, ids: &[MediaId], index: usize, shift: bool, toggle: bool)
        ensures
            index >= ids@.len() ==> final(self)@ == old(self)@ && final(self).anchor == old(self).anchor,
            index < ids@.len() && shift ==> {
                let a = match old(self).anchor {
                    Some(a) => if a < ids@.len() - 1 { a as int } else { ids@.len() - 1 },
                    None => index as int,
                };
                let lo = if a <= index { a } else { index as int };
                let hi = if a <= index { index as int } else { a };
                &&& final(self)@ == (if toggle { old(self)@ } else { Set::<MediaId>::empty() }).union(
                    range_ids(ids@, lo, hi),
                )
                &&& final(self).anchor == old(self).anchor
            },
            index < ids@.len() && !shift && toggle ==> {
                &&& final(self)@ == (if old(self)@.contains(ids@[index as int]) {
                    old(self)@.remove(ids@[index as int])
                } else {
                    old(self)@.insert(ids@[index as int])
                })
                &&& final(self).anchor == Some(index)
            },
            index < ids@.len() && !shift && !toggle ==> final(self)@ == set![ids@[index as int]]
                && final(self).anchor == Some(index),
    {
        if index >= ids.len() {
            return;
        }
        let clicked = ids[index];
        if shift {
            let a0 = match self.anchor {
                Some(a) => a,
                None => index,
            };
            let anchor = if a0 < ids.len() - 1 { a0 } else { ids.len() - 1 };
            let (lo, hi) = if anchor <= index { (anchor, index) } else { (index, anchor) };
            let ghost start = if toggle { self@ } else { Set::<MediaId>::empty() };
            if !toggle {
                self.ids = Vec::new();
                proof {
                    assert(self@ =~= Set::<MediaId>::empty());
                }
            }
            let mut k: usize = lo;
            while k <= hi
                invariant
                    lo <= k <= hi + 1,
                    hi < ids@.len(),
                    self@ == start.union(range_ids(ids@, lo as int, k as int - 1)),
                    self.anchor == old(self).anchor,
                decreases hi + 1 - k,
            {
                let ghost before = self@;
                self.add(ids[k]);
                proof {
                    assert(range_ids(ids@, lo as int, k as int) =~= range_ids(ids@, lo as int, k as int - 1).insert(
                        ids@[k as int],
                    ));
                    assert(self@ =~= start.union(range_ids(ids@, lo as int, k as int)));
                }
                k = k + 1;
            }
        } else if toggle {
            if holds(&self.ids, clicked) {
                self.ids = without(&self.ids, clicked);
                proof {
                    assert(self@ =~= old(self)@.remove(clicked));
                }
            } else {
                self.add(clicked);
            }
            self.anchor = Some(index);
        } else {
            self.ids = Vec::new();
            self.ids.push(clicked);
            self.anchor = Some(index);
            proof {
                assert(self@ =~= set![clicked]) by {
                    assert(self.ids@[0] == clicked);
                }
            }
        }
    }

    /// Marquee result: the cells at `hits`, added to `base` when
    /// `additive` (shift/Cmd held when the drag started).
    pub fn marquee(&mut self, ids: &[MediaId], hits: &[usize], base: &GridSelection, additive: bool)
        ensures
            final(self)@ == (if additive { base@ } else { Set::<MediaId>::empty() }).union(hit_ids(ids@, hits@)),
            final(self).anchor == old(self).anchor,
    {
        let ghost start = if additive { base@ } else { Set::<MediaId>::empty() };
        if additive {
            self.ids = base.ids.clone();
            proof {
                assert(self.ids@ =~= base.ids@);
            }
        } else {
            self.ids = Vec::new();
        }
        proof {
            assert(self@ =~= start);
        }
        let mut j: usize = 0;
        proof {
            assert(hit_ids_upto(ids@, hits@, 0) =~= Set::<MediaId>::empty());
            assert(self@ =~= start.union(hit_ids_upto(ids@, hits@, 0)));
        }
        while j < hits.len()
            invariant
                j <= hits@.len(),
                self@ == start.union(hit_ids_upto(ids@, hits@, j as int)),
                self.anchor == old(self).anchor,
            decreases hits@.len() - j,
        {
            let i = hits[j];
            if i < ids.len() {
                self.add(ids[i]);
                proof {
                    assert(hit_ids_upto(ids@, hits@, j + 1) =~= hit_ids_upto(ids@, hits@, j as int).insert(ids@[i as int]));
                }
            } else {
                proof {
                    assert(hit_ids_upto(ids@, hits@, j + 1) =~= hit_ids_upto(ids@, hits@, j as int));
                }
            }
            proof {
                assert(self@ =~= start.union(hit_ids_upto(ids@, hits@, j + 1)));
            }
            j = j + 1;
        }
    }

    /// Selected ids in grid order.
    pub fn ordered(&self, ids: &[MediaId]) -> (v: Vec<MediaId>)
        ensures
            v@ == ids@.filter(|m: MediaId| self@.contains(m)),
    {
        let ghost f = |m: MediaId| self@.contains(m);
        let mut v: Vec<MediaId> = Vec::new();
        let mut i: usize = 0;
        while i < ids.len()
            invariant
                i <= ids@.len(),
                f == (|m: MediaId| self@.contains(m)),
                v@ == ids@.take(i as int).filter(f),
            decreases ids@.len() - i,
        {
            let m = ids[i];
            proof {
                assert(ids@.take(i + 1).drop_last() =~= ids@.take(i as int));
                reveal(Seq::filter);
            }
            if holds(&self.ids, m) {
                v.push(m);
            }
            proof {
                assert(ids@.take(i + 1).last() == m);
                assert(v@ =~= ids@.take(i + 1).filter(f));
            }
            i = i + 1;
        }
        proof {
            assert(ids@.take(ids@.len() as int) =~= ids@);
        }
        v
    }

    /// Drops ids that are no longer in the grid, and an anchor past its end.
    pub fn retain_existing(&mut self, ids: &[MediaId])
        ensures
            final(self)@ == old(self)@.intersect(ids@.to_set()),
            final(self).anchor == (match old(self).anchor {
                Some(a) => if a >= ids@.len() { None } else { Some(a) },
                None => None,
            }),
    {
        let mut kept: Vec<MediaId> = Vec::new();
        let ghost old_ids = self.ids@;
        let mut i: usize = 0;
        while i < self.ids.len()
            invariant
                i <= self.ids@.len(),
                self.ids@ == old_ids,
                forall|m: MediaId| kept@.contains(m) <==> (exists|k: int| 0 <= k < i && old_ids[k] == m)
                    && ids@.contains(m),
            decreases self.ids@.len() - i,
        {
            let m = self.ids[i];
            let mut found = false;
            let mut j: usize = 0;
            while j < ids.len()
                invariant
                    j <= ids@.len(),
                    found == (exists|k: int| 0 <= k < j && ids@[k] == m),
                decreases ids@.len() - j,
            {
                if ids[j] == m {
                    found = true;
                }
                j = j + 1;
            }
            let ghost prev = kept@;
            if found {
                kept.push(m);
            }
            proof {
                assert forall|x: MediaId| kept@.contains(x) <==> (exists|k: int| 0 <= k < i + 1 && old_ids[k] == x)
                    && ids@.contains(x) by {
                    if found {
                        vstd::seq_lib::lemma_seq_contains_after_push(prev, m, x);
                        let w = choose|w: int| 0 <= w < j && ids@[w] == m;
                        assert(ids@[w] == m);
                    }
                    if x == m {
                        assert(old_ids[i as int] == x);
                        if ids@.contains(x) {
                            let w = choose|w: int| 0 <= w < ids@.len() && ids@[w] == x;
                            assert(ids@[w] == m);
                        }
                    }
                    if (exists|k: int| 0 <= k < i + 1 && old_ids[k] == x) && ids@.contains(x) {
                        let k = choose|k: int| 0 <= k < i + 1 && old_ids[k] == x;
                        if k < i {
                            assert(exists|k2: int| 0 <= k2 < i && old_ids[k2] == x);
                        }
                    }
                }
            }
            i = i + 1;
        }
        self.ids = kept;
        match self.anchor {
            Some(a) => if a >= ids.len() {
                self.anchor = None;
            },
            None => {},
        }
        proof {
            assert(self@ =~= old(self)@.intersect(ids@.to_set())) by {
                assert forall|m: MediaId| self@.contains(m) <==> old(self)@.contains(m) && ids@.to_set().contains(m) by {
                    if old(self).ids@.contains(m) {
                        let k = choose|k: int| 0 <= k < old_ids.len() && old_ids[k] == m;
                        assert(exists|k2: int| 0 <= k2 < old_ids.len() && old_ids[k2] == m);
                    }
                }
            }
        }
    }

    /// Nothing selected, no anchor.
    pub fn clear(&mut self)
        ensures
            final(self)@ == Set::<MediaId>::empty(),
            final(self).anchor is None,
    {
        self.ids = Vec::new();
        self.anchor = None;
        proof {
            assert(self@ =~= Set::<MediaId>::empty());
        }
    }
}

/// Position of the first `x` in `s` at or after `i`, or `s.len()`.
pub open spec fn first_at(s: Seq<usize>, x: usize, i: int) -> int
    decreases s.len() - i,
{
    if i >= s.len() || i < 0 {
        s.len() as int
    } else if s[i] == x {
        i
    } else {
        first_at(s, x, i + 1)
    }
}

pub proof fn lemma_first_at(s: Seq<usize>, x: usize, i: int)
    requires
        0 <= i <= s.len(),
    ensures
        i <= first_at(s, x, i) <= s.len(),
        first_at(s, x, i) < s.len() ==> s[first_at(s, x, i)] == x,
        forall|k: int| i <= k < first_at(s, x, i) ==> s[k] != x,
    decreases s.len() - i,
{
    if i < s.len() && s[i] != x {
        lemma_first_at(s, x, i + 1);
    }
}

/// The most-recently-shown order after showing `index`: moved to the back
/// if it was there, added at the back if not.
pub open spec fn shown_order(s: Seq<usize>, index: usize) -> Seq<usize> {
    let p = first_at(s, index, 0);
    (if p < s.len() {
        s.remove(p)
    } else {
        s
    }).push(index)
}

/// How many entries `shown` evicts from the front of `s`.
pub open spec fn overflow(s: Seq<usize>, capacity: nat) -> int {
    if s.len() > capacity {
        s.len() - capacity
    } else {
        0
    }
}

/// Remembers which grid cells were shown recently so thumbnails for cells
/// far away can be dropped from memory.
pub struct ThumbWindow {
    order: Vec<usize>,
    capacity: usize,
}

impl View for ThumbWindow {
    /// The cells from least to most recently shown, and how many are kept.
    type V = (Seq<usize>, nat);

    closed spec fn view(&self) -> (Seq<usize>, nat) {
        (self.order@, self.capacity as nat)
    }
}

impl ThumbWindow {
    /// A window keeping `capacity` cells, at least one.
    pub fn new(capacity: usize) -> (w: ThumbWindow)
        ensures
            w@.0 == Seq::<usize>::empty(),
            w@.1 == if capacity > 0 { capacity as nat } else { 1 },
    {
        ThumbWindow { order: Vec::new(), capacity: if capacity > 0 { capacity } else { 1 } }
    }

    /// Records that `index` is visible. Returns the cells whose images
    /// should be released now: the least recently shown beyond capacity.
    pub fn shown(&mut self, index: usize) -> (evicted: Vec<usize>)
        ensures
            final(self)@.1 == old(self)@.1,
            evicted@ == shown_order(old(self)@.0, index).take(overflow(shown_order(old(self)@.0, index), old(self)@.1)),
            final(self)@.0 == shown_order(old(self)@.0, index).skip(overflow(shown_order(old(self)@.0, index), old(self)@.1)),
    {
        let ghost s = self.order@;
        proof {
            lemma_first_at(s, index, 0);
        }
        let mut p: usize = 0;
        while p < self.order.len() && self.order[p] != index
            invariant
                p <= self.order@.len(),
                self.order@ == s,
                first_at(s, index, 0) == first_at(s, index, p as int),
            decreases self.order@.len() - p,
        {
            p = p + 1;
        }
        proof {
            assert(first_at(s, index, p as int) == p);
        }
        if p < self.order.len() {
            self.order.remove(p);
        }
        self.order.push(index);
        let ghost s2 = self.order@;
        assert(s2 == shown_order(s, index));
        let mut evicted: Vec<usize> = Vec::new();
        while self.order.len() > self.capacity
            invariant
                evicted@ == s2.take(evicted@.len() as int),
                self.order@ == s2.skip(evicted@.len() as int),
                evicted@.len() <= overflow(s2, self.capacity as nat),
                self.capacity == old(self).capacity,
            decreases self.order@.len(),
        {
            let old_front = self.order.remove(0);
            evicted.push(old_front);
            proof {
                assert(evicted@ =~= s2.take(evicted@.len() as int));
                assert(self.order@ =~= s2.skip(evicted@.len() as int));
            }
        }
        evicted
    }

    /// Forgets every cell.
    pub fn clear(&mut self)
        ensures
            final(self)@ == (Seq::<usize>::empty(), old(self)@.1),
    {
        self.order = Vec::new();
    }

    /// Whether `index` was shown recently.
    pub fn contains(&self, index: usize) -> (b: bool)
        ensures
            b == self@.0.contains(index),
    {
        let mut i: usize = 0;
        while i < self.order.len()
            invariant
                i <= self.order@.len(),
                forall|k: int| 0 <= k < i ==> self.order@[k] != index,
            decreases self.order@.len() - i,
        {
            if self.order[i] == index {
                return true;
            }
            i = i + 1;
        }
        false
    }
}

} // verus!
