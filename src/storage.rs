use vstd::prelude::*;
use crate::raster::{Loc, pt};

verus! {

/// Handle of a registered component: a fixed-width slot kind.
#[derive(Clone, Copy, PartialEq, Eq, Structural, Debug)]
pub struct Component(pub usize);

/// Handle of a registered entity type: an ordered list of components.
#[derive(Clone, Copy, PartialEq, Eq, Structural, Debug)]
pub struct EntityType(pub usize);

/// Handle of an entity: one record of an entity type.
#[derive(Clone, Copy, PartialEq, Eq, Structural, Debug)]
pub struct Entity(pub usize);

#[derive(Clone, Copy, PartialEq, Eq, Structural, Debug)]
pub enum StorageError {
    /// The component is not part of the entity's type.
    SchemaMismatch,
    /// The entity or entity type handle is unknown.
    InvalidHandle,
}

/// Where a component's bytes lie within an entity's record.
#[derive(Clone, Copy, PartialEq, Eq, Structural, Debug)]
pub struct Slot {
    pub offset: usize,
    pub width: usize,
}

pub struct LayoutView {
    pub components: Seq<usize>,
    pub offsets: Seq<int>,
    pub size: int,
}

pub struct RecordView {
    pub ty: usize,
    pub bytes: Seq<u8>,
}

pub struct StorageView {
    pub widths: Seq<usize>,
    pub layouts: Seq<LayoutView>,
    pub records: Seq<RecordView>,
}

pub open spec fn ids(comps: Seq<Component>) -> Seq<usize> {
    comps.map_values(|c: Component| c.0)
}

/// Total width of the listed components.
pub open spec fn sum_widths(widths: Seq<usize>, comps: Seq<usize>) -> int
    decreases comps.len(),
{
    if comps.len() == 0 {
        0
    } else {
        sum_widths(widths, comps.drop_last()) + widths[comps.last() as int]
    }
}

/// The packed layout of a record made of `comps` in this order: each offset is
/// the total width of the components before it.
pub open spec fn layout_of(widths: Seq<usize>, comps: Seq<usize>) -> LayoutView {
    LayoutView {
        components: comps,
        offsets: Seq::new(comps.len(), |k: int| sum_widths(widths, comps.take(k))),
        size: sum_widths(widths, comps),
    }
}

pub open spec fn valid_components(widths: Seq<usize>, comps: Seq<usize>) -> bool {
    forall|k: int| 0 <= k < comps.len() ==> #[trigger] comps[k] < widths.len()
}

/// `k` is where `v` first occurs in `s`.
pub open spec fn first_at(s: Seq<usize>, v: usize, k: int) -> bool {
    &&& 0 <= k < s.len()
    &&& s[k] == v
    &&& forall|i: int| 0 <= i < k ==> s[i] != v
}

proof fn lemma_first_occurrence(s: Seq<usize>, v: usize)
    requires
        s.contains(v),
    ensures
        exists|k: int| first_at(s, v, k),
    decreases s.len(),
{
    if s.drop_last().contains(v) {
        lemma_first_occurrence(s.drop_last(), v);
        let k = choose|k: int| first_at(s.drop_last(), v, k);
        assert forall|i: int| 0 <= i < k implies s[i] != v by {
            assert(s.drop_last()[i] != v);
        }
        assert(s[k] == s.drop_last()[k]);
        assert(first_at(s, v, k));
    } else {
        let k = s.len() - 1;
        let w = choose|w: int| 0 <= w < s.len() && s[w] == v;
        if w < k {
            assert(s.drop_last()[w] == v);
        }
        assert forall|i: int| 0 <= i < k implies s[i] != v by {
            if s[i] == v {
                assert(s.drop_last()[i] == v);
            }
        }
        assert(first_at(s, v, k));
    }
}

impl StorageView {
    pub open spec fn wf(&self) -> bool {
        &&& forall|t: int|
            0 <= t < self.layouts.len() ==> {
                &&& valid_components(self.widths, #[trigger] self.layouts[t].components)
                &&& self.layouts[t] == layout_of(self.widths, self.layouts[t].components)
                &&& self.layouts[t].size <= usize::MAX
            }
        &&& forall|e: int|
            0 <= e < self.records.len() ==> {
                &&& #[trigger] self.records[e].ty < self.layouts.len()
                &&& self.records[e].bytes.len() == self.layouts[self.records[e].ty as int].size
            }
    }

    pub open spec fn layout_of_entity(&self, e: Entity) -> LayoutView {
        self.layouts[self.records[e.0 as int].ty as int]
    }

    /// Position of the first occurrence of `c` in the entity's component list.
    pub open spec fn index_in(&self, e: Entity, c: Component) -> int {
        choose|k: int| first_at(self.layout_of_entity(e).components, c.0, k)
    }

    pub open spec fn has(&self, e: Entity, c: Component) -> bool {
        &&& e.0 < self.records.len()
        &&& self.layout_of_entity(e).components.contains(c.0)
    }

    pub open spec fn offset(&self, e: Entity, c: Component) -> int {
        self.layout_of_entity(e).offsets[self.index_in(e, c)]
    }

    /// The bytes that back component `c` in entity `e`.
    pub open spec fn slot_bytes(&self, e: Entity, c: Component) -> Seq<u8> {
        self.records[e.0 as int].bytes.subrange(
            self.offset(e, c),
            self.offset(e, c) + self.widths[c.0 as int],
        )
    }

    pub open spec fn lookup(&self, e: Entity, c: Component) -> Result<Slot, StorageError> {
        if e.0 >= self.records.len() {
            Err(StorageError::InvalidHandle)
        } else if !self.has(e, c) {
            Err(StorageError::SchemaMismatch)
        } else {
            Ok(Slot { offset: self.offset(e, c) as usize, width: self.widths[c.0 as int] })
        }
    }

    /// This store with the bytes of component `c` in entity `e` replaced by `data`.
    pub open spec fn with_slot(&self, e: Entity, c: Component, data: Seq<u8>) -> StorageView {
        let bytes = self.records[e.0 as int].bytes;
        let off = self.offset(e, c);
        StorageView {
            records: self.records.update(
                e.0 as int,
                RecordView {
                    ty: self.records[e.0 as int].ty,
                    bytes: bytes.subrange(0, off) + data + bytes.subrange(
                        off + data.len(),
                        bytes.len() as int,
                    ),
                },
            ),
            ..*self
        }
    }
}

proof fn lemma_sum_prefix(widths: Seq<usize>, comps: Seq<usize>, k: int)
    requires
        0 <= k <= comps.len(),
        forall|i: int| 0 <= i < comps.len() ==> #[trigger] comps[i] < widths.len(),
    ensures
        0 <= sum_widths(widths, comps.take(k)) <= sum_widths(widths, comps),
    decreases comps.len(),
{
    if comps.len() > 0 {
        if k == comps.len() {
            assert(comps.take(k) =~= comps);
            lemma_sum_prefix(widths, comps.drop_last(), k - 1);
            assert(comps.drop_last().take(k - 1) =~= comps.drop_last());
        } else {
            lemma_sum_prefix(widths, comps.drop_last(), k);
            assert(comps.drop_last().take(k) =~= comps.take(k));
        }
    }
}

proof fn lemma_slot_in_record(widths: Seq<usize>, comps: Seq<usize>, j: int)
    requires
        valid_components(widths, comps),
        0 <= j < comps.len(),
    ensures
        0 <= layout_of(widths, comps).offsets[j],
        layout_of(widths, comps).offsets[j] + widths[comps[j] as int] <= layout_of(
            widths,
            comps,
        ).size,
{
    lemma_sum_prefix(widths, comps, j + 1);
    lemma_sum_prefix(widths, comps, j);
    assert(comps.take(j + 1).drop_last() =~= comps.take(j));
}

/// In a record, a component ends no later than any component after it starts:
/// distinct components of one entity own disjoint byte ranges.
pub proof fn lemma_slots_disjoint(widths: Seq<usize>, comps: Seq<usize>, i: int, j: int)
    requires
        valid_components(widths, comps),
        0 <= i < j < comps.len(),
    ensures
        layout_of(widths, comps).offsets[i] + widths[comps[i] as int] <= layout_of(
            widths,
            comps,
        ).offsets[j],
        layout_of(widths, comps).offsets[j] + widths[comps[j] as int] <= layout_of(
            widths,
            comps,
        ).size,
{
    let pre = comps.take(j);
    lemma_sum_prefix(widths, pre, i + 1);
    assert(pre.take(i + 1) =~= comps.take(i + 1));
    assert(comps.take(i + 1).drop_last() =~= comps.take(i));
    lemma_slot_in_record(widths, comps, j);
}

/// A 16-bit value as its two's-complement bit pattern.
pub open spec fn u16_of(v: int) -> int {
    if v < 0 {
        v + 0x10000
    } else {
        v
    }
}

/// The signed 16-bit value whose little-endian bytes are `lo`, `hi`.
pub open spec fn i16_from(lo: u8, hi: u8) -> int {
    let v = hi as int * 256 + lo as int;
    if v >= 0x8000 {
        v - 0x10000
    } else {
        v
    }
}

/// A point as stored: x then y, each as two little-endian bytes.
pub open spec fn point_bytes(p: (int, int)) -> Seq<u8> {
    let x = u16_of(p.0);
    let y = u16_of(p.1);
    seq![(x % 256) as u8, (x / 256) as u8, (y % 256) as u8, (y / 256) as u8]
}

/// A location as stored.
pub open spec fn loc_bytes(l: Loc) -> Seq<u8> {
    point_bytes(pt(l))
}

pub open spec fn loc_from_bytes(b: Seq<u8>) -> (int, int) {
    (i16_from(b[0], b[1]), i16_from(b[2], b[3]))
}

/// A location written as bytes reads back as the same pair.
pub proof fn lemma_location_round_trip(l: Loc)
    ensures
        loc_bytes(l).len() == 4,
        loc_from_bytes(loc_bytes(l)) == pt(l),
{
    let x = u16_of(l[0] as int);
    let y = u16_of(l[1] as int);
    assert(0 <= x < 0x10000 && 0 <= y < 0x10000);
    assert(x == (x / 256) * 256 + x % 256);
    assert(y == (y / 256) * 256 + y % 256);
}

fn u16_bits(v: i16) -> (r: u16)
    ensures
        r as int == u16_of(v as int),
{
    if v < 0 {
        (v as i32 + 0x10000) as u16
    } else {
        v as u16
    }
}

fn encode_loc(l: Loc) -> (r: Vec<u8>)
    ensures
        r@ == loc_bytes(l),
{
    let x = u16_bits(l[0]);
    let y = u16_bits(l[1]);
    let r = vec![(x % 256) as u8, (x / 256) as u8, (y % 256) as u8, (y / 256) as u8];
    assert(r@ =~= loc_bytes(l));
    r
}

fn decode_i16(lo: u8, hi: u8) -> (r: i16)
    ensures
        r as int == i16_from(lo, hi),
{
    let v: i32 = hi as i32 * 256 + lo as i32;
    if v >= 0x8000 {
        (v - 0x10000) as i16
    } else {
        v as i16
    }
}

fn decode_loc(b: &Vec<u8>) -> (r: Loc)
    requires
        b@.len() == 4,
    ensures
        pt(r) == loc_from_bytes(b@),
{
    [decode_i16(b[0], b[1]), decode_i16(b[2], b[3])]
}

struct Layout {
    components: Vec<usize>,
    offsets: Vec<usize>,
    size: usize,
}

impl Layout {
    spec fn view(&self) -> LayoutView {
        LayoutView {
            components: self.components@,
            offsets: self.offsets@.map_values(|o: usize| o as int),
            size: self.size as int,
        }
    }
}

struct Record {
    ty: usize,
    bytes: Vec<u8>,
}

/// Flat binary records, one per entity, laid out by the entity's type.
pub struct ComponentStorage {
    widths: Vec<usize>,
    layouts: Vec<Layout>,
    records: Vec<Record>,
}

impl View for ComponentStorage {
    type V = StorageView;

    closed spec fn view(&self) -> StorageView {
        StorageView {
            widths: self.widths@,
            layouts: self.layouts@.map_values(|l: Layout| l.view()),
            records: self.records@.map_values(|r: Record| RecordView { ty: r.ty, bytes: r.bytes@ }),
        }
    }
}

impl ComponentStorage {
    pub fn new() -> (r: ComponentStorage)
        ensures
            r@.wf(),
            r@.widths.len() == 0,
            r@.layouts.len() == 0,
            r@.records.len() == 0,
    {
        let r = ComponentStorage { widths: Vec::new(), layouts: Vec::new(), records: Vec::new() };
        assert(r@.layouts =~= Seq::empty());
        assert(r@.records =~= Seq::empty());
        r
    }

    /// Registers a component of `width` bytes.
    pub fn create_component(&mut self, width: usize) -> (r: Component)
        requires
            old(self)@.wf(),
        ensures
            final(self)@.wf(),
            r.0 == old(self)@.widths.len(),
            final(self)@ == (StorageView { widths: old(self)@.widths.push(width), ..old(self)@ }),
    {
        let r = Component(self.widths.len());
        self.widths.push(width);
        proof {
            let v = self@;
            let o = old(self)@;
            assert(v.layouts =~= o.layouts);
            assert(v.records =~= o.records);
            assert forall|t: int| 0 <= t < v.layouts.len() implies {
                &&& valid_components(v.widths, #[trigger] v.layouts[t].components)
                &&& v.layouts[t] == layout_of(v.widths, v.layouts[t].components)
            } by {
                let comps = v.layouts[t].components;
                assert(valid_components(o.widths, comps));
                assert forall|k: int| 0 <= k <= comps.len() implies sum_widths(
                    v.widths,
                    #[trigger] comps.take(k),
                ) == sum_widths(o.widths, comps.take(k)) by {
                    lemma_sum_same(o.widths, v.widths, comps.take(k));
                }
                assert(comps.take(comps.len() as int) =~= comps);
                assert(layout_of(v.widths, comps).offsets =~= layout_of(o.widths, comps).offsets);
            }
        }
        r
    }

    /// Registers an entity type made of `comps` in this order. Its record size is
    /// the sum of the component widths, and each component's offset is the sum
    /// of the widths before it.
    pub fn create_entity_type(&mut self, comps: Vec<Component>) -> (r: EntityType)
        requires
            old(self)@.wf(),
            valid_components(old(self)@.widths, ids(comps@)),
            sum_widths(old(self)@.widths, ids(comps@)) <= usize::MAX,
        ensures
            final(self)@.wf(),
            r.0 == old(self)@.layouts.len(),
            final(self)@ == (StorageView {
                layouts: old(self)@.layouts.push(layout_of(old(self)@.widths, ids(comps@))),
                ..old(self)@
            }),
    {
        let ghost all = ids(comps@);
        let mut components: Vec<usize> = Vec::new();
        let mut offsets: Vec<usize> = Vec::new();
        let mut total: usize = 0;
        let mut k: usize = 0;
        while k < comps.len()
            invariant
                k <= comps.len(),
                all == ids(comps@),
                valid_components(self@.widths, all),
                sum_widths(self@.widths, all) <= usize::MAX,
                self.widths@ == self@.widths,
                components@ == all.take(k as int),
                offsets@.len() == k,
                forall|i: int|
                    0 <= i < k ==> offsets@[i] as int == sum_widths(self@.widths, #[trigger] all.take(i)),
                total as int == sum_widths(self@.widths, all.take(k as int)),
            decreases comps.len() - k,
        {
            let c = comps[k].0;
            proof {
                lemma_sum_prefix(self@.widths, all, k + 1);
                assert(all.take(k + 1).drop_last() =~= all.take(k as int));
                assert(all[k as int] == c);
            }
            offsets.push(total);
            components.push(c);
            total = total + self.widths[c];
            k = k + 1;
            assert(components@ =~= all.take(k as int));
        }
        assert(all.take(k as int) =~= all);
        let layout = Layout { components, offsets, size: total };
        assert(layout.view().offsets =~= layout_of(self@.widths, all).offsets);
        let r = EntityType(self.layouts.len());
        self.layouts.push(layout);
        proof {
            let v = self@;
            let o = old(self)@;
            assert(v.layouts =~= o.layouts.push(layout_of(o.widths, all)));
            assert(v.records =~= o.records);
        }
        r
    }

    /// Creates an entity of type `ty` with a zeroed record.
    pub fn create_entity(&mut self, ty: EntityType) -> (r: Result<Entity, StorageError>)
        requires
            old(self)@.wf(),
        ensures
            final(self)@.wf(),
            ty.0 < old(self)@.layouts.len() ==> r == Ok::<Entity, StorageError>(
                Entity(old(self)@.records.len() as usize),
            ) && final(self)@ == (StorageView {
                records: old(self)@.records.push(
                    RecordView {
                        ty: ty.0,
                        bytes: Seq::new(old(self)@.layouts[ty.0 as int].size as nat, |i: int| 0u8),
                    },
                ),
                ..old(self)@
            }),
            ty.0 >= old(self)@.layouts.len() ==> r == Err::<Entity, StorageError>(
                StorageError::InvalidHandle,
            ) && final(self)@ == old(self)@,
    {
        if ty.0 >= self.layouts.len() {
            return Err(StorageError::InvalidHandle);
        }
        let size = self.layouts[ty.0].size;
        let mut bytes: Vec<u8> = Vec::new();
        let mut k: usize = 0;
        while k < size
            invariant
                k <= size,
                bytes@ =~= Seq::new(k as nat, |i: int| 0u8),
            decreases size - k,
        {
            bytes.push(0u8);
            k = k + 1;
        }
        let r = Entity(self.records.len());
        self.records.push(Record { ty: ty.0, bytes });
        proof {
            let v = self@;
            let o = old(self)@;
            assert(v.layouts =~= o.layouts);
            assert(v.records =~= o.records.push(
                RecordView { ty: ty.0, bytes: Seq::new(o.layouts[ty.0 as int].size as nat, |i: int| 0u8) },
            ));
        }
        Ok(r)
    }

    /// The size in bytes of a record of type `ty`.
    pub fn record_size(&self, ty: EntityType) -> (r: Result<usize, StorageError>)
        requires
            self@.wf(),
        ensures
            ty.0 < self@.layouts.len() ==> r == Ok::<usize, StorageError>(
                self@.layouts[ty.0 as int].size as usize,
            ),
            ty.0 >= self@.layouts.len() ==> r == Err::<usize, StorageError>(
                StorageError::InvalidHandle,
            ),
    {
        if ty.0 < self.layouts.len() {
            Ok(self.layouts[ty.0].size)
        } else {
            Err(StorageError::InvalidHandle)
        }
    }

    /// Finds where component `c` lies in the record of entity `e`.
    pub fn lookup_component(&self, e: Entity, c: Component) -> (r: Result<Slot, StorageError>)
        requires
            self@.wf(),
        ensures
            r == self@.lookup(e, c),
    {
        if e.0 >= self.records.len() {
            return Err(StorageError::InvalidHandle);
        }
        let ty = self.records[e.0].ty;
        let layout = &self.layouts[ty];
        proof {
            assert(self@.records[e.0 as int].ty == ty);
            assert(valid_components(self@.widths, self@.layouts[ty as int].components));
            assert(layout.view() == self@.layout_of_entity(e));
            let lv = self@.layouts[ty as int];
            assert(lv == layout_of(self@.widths, lv.components));
            assert(lv.offsets.len() == lv.components.len());
            assert(layout.view().offsets.len() == layout.offsets@.len());
            assert(layout.offsets@.len() == layout.components@.len());
        }
        let mut k: usize = 0;
        while k < layout.components.len()
            invariant
                layout.view() == self@.layout_of_entity(e),
                layout.offsets@.len() == layout.components@.len(),
                valid_components(self@.widths, layout.components@),
                self@.wf(),
                e.0 < self@.records.len(),
                k <= layout.components@.len(),
                forall|i: int| 0 <= i < k ==> layout.components@[i] != c.0,
            decreases layout.components@.len() - k,
        {
            if layout.components[k] == c.0 {
                proof {
                    let comps = layout.components@;
                    assert(comps.contains(c.0));
                    assert(first_at(comps, c.0, k as int));
                    let j = self@.index_in(e, c);
                    assert(first_at(comps, c.0, j));
                    if j < k {
                        assert(comps[j] != c.0);
                    }
                    if k < j {
                        assert(comps[k as int] != c.0);
                    }
                    assert(j == k);
                    assert(c.0 < self@.widths.len());
                    assert(self@.layout_of_entity(e).offsets[j] == layout.offsets@[j] as int);
                }
                return Ok(Slot { offset: layout.offsets[k], width: self.widths[c.0] });
            }
            k = k + 1;
        }
        Err(StorageError::SchemaMismatch)
    }

    /// A copy of the bytes of component `c` in entity `e`.
    pub fn component_bytes(&self, e: Entity, c: Component) -> (r: Result<Vec<u8>, StorageError>)
        requires
            self@.wf(),
        ensures
            match r {
                Ok(v) => self@.lookup(e, c) is Ok && v@ == self@.slot_bytes(e, c),
                Err(err) => self@.lookup(e, c) == Err::<Slot, StorageError>(err),
            },
    {
        let slot = match self.lookup_component(e, c) {
            Ok(s) => s,
            Err(err) => {
                return Err(err);
            },
        };
        proof {
            lemma_slot_fits(self@, e, c);
        }
        let bytes = &self.records[e.0].bytes;
        let len = bytes.len();
        assert(bytes@ == self@.records[e.0 as int].bytes);
        assert(slot.offset as int == self@.offset(e, c));
        let mut out: Vec<u8> = Vec::new();
        let mut k: usize = 0;
        while k < slot.width
            invariant
                slot.offset + slot.width <= bytes@.len(),
                len == bytes@.len(),
                k <= slot.width,
                out@ =~= bytes@.subrange(slot.offset as int, slot.offset + k),
            decreases slot.width - k,
        {
            out.push(bytes[slot.offset + k]);
            k = k + 1;
        }
        Ok(out)
    }

    /// Replaces the bytes of component `c` in entity `e` by `data`; on an error
    /// nothing changes.
    pub fn write_component(&mut self, e: Entity, c: Component, data: &Vec<u8>) -> (r: Result<
        (),
        StorageError,
    >)
        requires
            old(self)@.wf(),
            c.0 < old(self)@.widths.len() ==> data@.len() == old(self)@.widths[c.0 as int],
        ensures
            final(self)@.wf(),
            match old(self)@.lookup(e, c) {
                Ok(_) => r == Ok::<(), StorageError>(()) && final(self)@ == old(self)@.with_slot(
                    e,
                    c,
                    data@,
                ),
                Err(err) => r == Err::<(), StorageError>(err) && final(self)@ == old(self)@,
            },
    {
        let slot = match self.lookup_component(e, c) {
            Ok(s) => s,
            Err(err) => {
                return Err(err);
            },
        };
        proof {
            lemma_slot_fits(self@, e, c);
        }
        let ty = self.records[e.0].ty;
        let old_bytes = &self.records[e.0].bytes;
        let len = old_bytes.len();
        assert(old_bytes@ == self@.records[e.0 as int].bytes);
        assert(slot.offset as int == self@.offset(e, c));
        let ghost target = old_bytes@.subrange(0, slot.offset as int) + data@ + old_bytes@.subrange(
            slot.offset + slot.width,
            len as int,
        );
        let mut nb: Vec<u8> = Vec::new();
        let mut k: usize = 0;
        while k < len
            invariant
                len == old_bytes@.len(),
                slot.offset + slot.width <= len,
                data@.len() == slot.width,
                target.len() == len,
                forall|i: int| 0 <= i < slot.offset ==> target[i] == old_bytes@[i],
                forall|i: int| slot.offset <= i < slot.offset + slot.width ==> target[i] == data@[i - slot.offset],
                forall|i: int| slot.offset + slot.width <= i < len ==> target[i] == old_bytes@[i],
                k <= len,
                nb@ =~= target.take(k as int),
            decreases len - k,
        {
            let b = if k >= slot.offset && k < slot.offset + slot.width {
                data[k - slot.offset]
            } else {
                old_bytes[k]
            };
            nb.push(b);
            k = k + 1;
        }
        assert(nb@ =~= target);
        self.records.set(e.0, Record { ty, bytes: nb });
        proof {
            let v = self@;
            let o = old(self)@;
            assert(v.records =~= o.with_slot(e, c, data@).records);
            assert(v.layouts =~= o.layouts);
            assert(v == o.with_slot(e, c, data@));
            assert forall|i: int| 0 <= i < v.records.len() implies {
                &&& #[trigger] v.records[i].ty < v.layouts.len()
                &&& v.records[i].bytes.len() == v.layouts[v.records[i].ty as int].size
            } by {
                assert(o.records[i].ty < o.layouts.len());
            }
        }
        Ok(())
    }

    /// Reads component `c` of entity `e` as a location.
    pub fn location(&self, e: Entity, c: Component) -> (r: Result<Loc, StorageError>)
        requires
            self@.wf(),
            c.0 < self@.widths.len(),
            self@.widths[c.0 as int] == 4,
        ensures
            match r {
                Ok(l) => self@.lookup(e, c) is Ok && pt(l) == loc_from_bytes(self@.slot_bytes(e, c)),
                Err(err) => self@.lookup(e, c) == Err::<Slot, StorageError>(err),
            },
    {
        match self.component_bytes(e, c) {
            Ok(b) => {
                proof {
                    lemma_slot_fits(self@, e, c);
                }
                Ok(decode_loc(&b))
            },
            Err(err) => Err(err),
        }
    }

    /// Writes `l` into component `c` of entity `e`; on an error nothing changes.
    pub fn set_location(&mut self, e: Entity, c: Component, l: Loc) -> (r: Result<(), StorageError>)
        requires
            old(self)@.wf(),
            c.0 < old(self)@.widths.len(),
            old(self)@.widths[c.0 as int] == 4,
        ensures
            final(self)@.wf(),
            match old(self)@.lookup(e, c) {
                Ok(_) => r == Ok::<(), StorageError>(()) && final(self)@ == old(self)@.with_slot(
                    e,
                    c,
                    loc_bytes(l),
                ),
                Err(err) => r == Err::<(), StorageError>(err) && final(self)@ == old(self)@,
            },
    {
        let data = encode_loc(l);
        self.write_component(e, c, &data)
    }
}

proof fn lemma_slot_fits(v: StorageView, e: Entity, c: Component)
    requires
        v.wf(),
        v.has(e, c),
    ensures
        c.0 < v.widths.len(),
        0 <= v.offset(e, c),
        v.offset(e, c) + v.widths[c.0 as int] <= v.records[e.0 as int].bytes.len(),
{
    let ty = v.records[e.0 as int].ty;
    let comps = v.layouts[ty as int].components;
    assert(valid_components(v.widths, comps));
    assert(comps.contains(c.0));
    lemma_first_occurrence(comps, c.0);
    let k = v.index_in(e, c);
    assert(first_at(comps, c.0, k));
    lemma_slot_in_record(v.widths, comps, k);
}

/// Writing a component's bytes keeps the store well formed and every lookup
/// as it was, and reading the component back yields what was written.
pub proof fn lemma_write_then_read(v: StorageView, e: Entity, c: Component, data: Seq<u8>)
    requires
        v.wf(),
        v.has(e, c),
        data.len() == v.widths[c.0 as int],
    ensures
        v.with_slot(e, c, data).wf(),
        forall|e2: Entity, c2: Component| #[trigger]
            v.with_slot(e, c, data).lookup(e2, c2) == v.lookup(e2, c2),
        v.with_slot(e, c, data).slot_bytes(e, c) == data,
        forall|e2: Entity, c2: Component|
            e2 != e && e2.0 < v.records.len() ==> #[trigger] v.with_slot(e, c, data).slot_bytes(
                e2,
                c2,
            ) == v.slot_bytes(e2, c2),
{
    lemma_slot_fits(v, e, c);
    let w = v.with_slot(e, c, data);
    assert forall|i: int| 0 <= i < w.records.len() implies {
        &&& #[trigger] w.records[i].ty < w.layouts.len()
        &&& w.records[i].bytes.len() == w.layouts[w.records[i].ty as int].size
    } by {
        assert(v.records[i].ty < v.layouts.len());
    }
    assert forall|e2: Entity, c2: Component| #[trigger] w.lookup(e2, c2) == v.lookup(e2, c2) by {
        if e2.0 < v.records.len() {
            assert(w.layout_of_entity(e2) == v.layout_of_entity(e2));
            assert(w.index_in(e2, c2) == v.index_in(e2, c2));
        }
    }
    let off = v.offset(e, c);
    assert(w.slot_bytes(e, c) =~= data);
    assert forall|e2: Entity, c2: Component|
        e2 != e && e2.0 < v.records.len() implies #[trigger] w.slot_bytes(e2, c2) == v.slot_bytes(
        e2,
        c2,
    ) by {
        assert(e2.0 != e.0);
        assert(w.layout_of_entity(e2) == v.layout_of_entity(e2));
        assert(w.index_in(e2, c2) == v.index_in(e2, c2));
    }
}

/// Every registered entity type is packed: its record size is the sum of its
/// components' widths, and each component's offset is the sum of the widths
/// before it.
pub proof fn lemma_layout_is_packed(v: StorageView, t: int, i: int)
    requires
        v.wf(),
        0 <= t < v.layouts.len(),
        0 <= i < v.layouts[t].components.len(),
    ensures
        v.layouts[t].size == sum_widths(v.widths, v.layouts[t].components),
        v.layouts[t].offsets[i] == sum_widths(v.widths, v.layouts[t].components.take(i)),
{
    assert(valid_components(v.widths, v.layouts[t].components));
}

/// A location written into an entity's component and read back from it is the
/// location that was written.
pub proof fn lemma_location_write_read(v: StorageView, e: Entity, c: Component, l: Loc)
    requires
        v.wf(),
        v.has(e, c),
        v.widths[c.0 as int] == 4,
    ensures
        v.with_slot(e, c, loc_bytes(l)).lookup(e, c) == v.lookup(e, c),
        loc_from_bytes(v.with_slot(e, c, loc_bytes(l)).slot_bytes(e, c)) == pt(l),
{
    lemma_location_round_trip(l);
    lemma_write_then_read(v, e, c, loc_bytes(l));
}

proof fn lemma_sum_same(w1: Seq<usize>, w2: Seq<usize>, comps: Seq<usize>)
    requires
        w1.len() <= w2.len(),
        w1 =~= w2.take(w1.len() as int),
        forall|k: int| 0 <= k < comps.len() ==> #[trigger] comps[k] < w1.len(),
    ensures
        sum_widths(w1, comps) == sum_widths(w2, comps),
    decreases comps.len(),
{
    if comps.len() > 0 {
        lemma_sum_same(w1, w2, comps.drop_last());
        assert(comps.last() == comps[comps.len() - 1]);
    }
}

} // verus!
