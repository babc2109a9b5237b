use rangemap::RangeMap;
use vstd::prelude::*;

verus! {

/// Residency of a range of virtual addresses.
#[derive(Clone, Copy, PartialEq, Eq, Debug, Structural)]
pub enum MemState {
    Resident,
    NotResident,
    Unmapped,
    Untracked,
}

/// A half-open range `[start, end)` of one state, as the map lists it.
#[derive(Clone, Copy, PartialEq, Eq, Debug, Structural)]
pub struct Span {
    pub start: u64,
    pub end: u64,
    pub state: MemState,
}

#[verifier::external_type_specification]
#[verifier::external_body]
#[verifier::reject_recursive_types(K)]
#[verifier::reject_recursive_types(V)]
pub struct ExRangeMap<K, V>(RangeMap<K, V>);

/// What a range map holds, address by address.
pub uninterp spec fn range_map_contents(m: RangeMap<u64, MemState>) -> Map<u64, MemState>;

/// The map that holds no address.
pub open spec fn no_addrs() -> Map<u64, MemState> {
    Map::empty()
}

/// The addresses of `[start, end)`, each mapped to `state`.
pub open spec fn fill(start: u64, end: u64, state: MemState) -> Map<u64, MemState> {
    Map::new(|a: u64| start <= a < end, |a: u64| state)
}

/// The addresses of `[start, end)`.
pub open spec fn addrs(start: u64, end: u64) -> Set<u64> {
    Set::new(|a: u64| start <= a < end)
}

/// Spans that are non-empty, sorted, pairwise disjoint, and where two spans
/// that touch have different states (equal neighbours are coalesced).
pub open spec fn canonical(rs: Seq<Span>) -> bool {
    &&& forall|i: int| 0 <= i < rs.len() ==> #[trigger] rs[i].start < rs[i].end
    &&& forall|i: int, j: int| 0 <= i < j < rs.len() ==> #[trigger] rs[i].end <= #[trigger] rs[j].start
    &&& forall|i: int|
        0 <= i < rs.len() - 1 && #[trigger] rs[i].end == rs[i + 1].start ==> rs[i].state
            != rs[i + 1].state
}

/// The spans `rs` describe exactly the address-wise map `m`.
pub open spec fn covers(rs: Seq<Span>, m: Map<u64, MemState>) -> bool {
    &&& forall|i: int, a: u64|
        0 <= i < rs.len() && #[trigger] rs[i].start <= a && a < rs[i].end ==> #[trigger] m.contains_key(a)
            && m[a] == rs[i].state
    &&& forall|a: u64|
        #[trigger] m.contains_key(a) ==> exists|i: int|
            0 <= i < rs.len() && #[trigger] rs[i].start <= a && a < rs[i].end
}

/// A non-overlapping interval map from address ranges to residency.
pub struct MemMap {
    inner: RangeMap<u64, MemState>,
}

impl View for MemMap {
    type V = Map<u64, MemState>;

    closed spec fn view(&self) -> Map<u64, MemState> {
        range_map_contents(self.inner)
    }
}

/// Relies on `RangeMap::new`: a new map holds nothing.
#[verifier::external_body]
fn range_map_new() -> (r: RangeMap<u64, MemState>)
    ensures
        range_map_contents(r) == no_addrs(),
{
    RangeMap::new()
}

/// Relies on `RangeMap::insert`: `[start, end)` now maps to `state`, the rest is
/// kept. It panics on an empty range, which `requires` leaves out.
#[verifier::external_body]
fn range_map_insert(m: &mut RangeMap<u64, MemState>, start: u64, end: u64, state: MemState)
    requires
        start < end,
    ensures
        range_map_contents(*final(m)) == range_map_contents(*old(m)).union_prefer_right(
            fill(start, end, state),
        ),
{
    m.insert(start..end, state)
}

/// Relies on `RangeMap::remove`: the addresses of `[start, end)` leave the map,
/// the rest is kept. It panics on an empty range, which `requires` leaves out.
#[verifier::external_body]
fn range_map_remove(m: &mut RangeMap<u64, MemState>, start: u64, end: u64)
    requires
        start < end,
    ensures
        range_map_contents(*final(m)) == range_map_contents(*old(m)).remove_keys(
            addrs(start, end),
        ),
{
    m.remove(start..end)
}

/// Relies on `RangeMap::iter`: the stored ranges in order of start, which are
/// disjoint and non-empty, with touching ranges of equal value coalesced.
#[verifier::external_body]
fn range_map_spans(m: &RangeMap<u64, MemState>) -> (r: Vec<Span>)
    ensures
        canonical(r@),
        covers(r@, range_map_contents(*m)),
{
    m.iter().map(|(r, s)| Span { start: r.start, end: r.end, state: *s }).collect()
}

impl MemMap {
    /// An empty map.
    pub fn new() -> (r: MemMap)
        ensures
            r@ == no_addrs(),
    {
        MemMap { inner: range_map_new() }
    }

    /// Sets `[start, end)` to `state`, splitting whatever it overlaps.
    pub fn insert(&mut self, start: u64, end: u64, state: MemState)
        requires
            start < end,
        ensures
            final(self)@ == old(self)@.union_prefer_right(fill(start, end, state)),
    {
        range_map_insert(&mut self.inner, start, end, state);
    }

    /// Removes `[start, end)`, splitting whatever it partly overlaps.
    pub fn remove(&mut self, start: u64, end: u64)
        requires
            start < end,
        ensures
            final(self)@ == old(self)@.remove_keys(addrs(start, end)),
    {
        range_map_remove(&mut self.inner, start, end);
    }

    /// The map as its list of maximal spans.
    pub fn spans(&self) -> (r: Vec<Span>)
        ensures
            canonical(r@),
            covers(r@, self@),
    {
        range_map_spans(&self.inner)
    }
}

} // verus!
