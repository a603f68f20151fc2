//! The packets by which the server tells of windows and inventories.

use vstd::prelude::*;
use crate::basic::Boolean;
use crate::fixed::{Byte, Int, Short, UnsignedByte};
use crate::ids::IDS;
use crate::optional::ShortCountedArray;
use crate::packets::{malformed, ClientboundPacket};
use crate::slot::{Slot, SlotModel};
use crate::text::VarString;
use crate::wire::{lemma_field_read, lemma_join, present, read, tail, only_if, taken, Wire};
use vstd::string::StringExecFns;

verus! {

/// Whether a window of this type belongs to a horse, and so names its entity.
pub fn is_horse_window(window_type: &VarString) -> (b: bool)
    ensures
        b == (window_type@ == "EntityHorse"@),
{
    let horse = String::from_str("EntityHorse");
    window_type.0 == horse
}

/// A window is to be opened. The entity is there exactly when the window is of
/// the type `EntityHorse`.
#[derive(Debug, Clone, PartialEq, Eq)]
pub struct OpenWindow {
    pub window_id: UnsignedByte,
    pub window_type: VarString,
    pub window_title: VarString,
    pub number_of_slots: UnsignedByte,
    pub entity_id: Option<Int>,
}

/// What a `OpenWindow` holds.
pub struct OpenWindowModel {
    pub window_id: UnsignedByte,
    pub window_type: Seq<char>,
    pub window_title: Seq<char>,
    pub number_of_slots: UnsignedByte,
    pub entity_id: Option<Int>,
}

impl View for OpenWindow {
    type V = OpenWindowModel;

    open spec fn view(&self) -> OpenWindowModel {
        OpenWindowModel {
            window_id: self.window_id@,
            window_type: self.window_type@,
            window_title: self.window_title@,
            number_of_slots: self.number_of_slots@,
            entity_id: match self.entity_id {
                Some(v) => Some(v@),
                None => None,
            },
        }
    }
}

impl OpenWindow {
    /// A packet of the given fields.
    pub fn new(
        window_id: UnsignedByte,
        window_type: VarString,
        window_title: VarString,
        number_of_slots: UnsignedByte,
        entity_id: Option<Int>,
    ) -> (r: Self)
        ensures
            r == (OpenWindow { window_id, window_type, window_title, number_of_slots, entity_id }),
    {
        OpenWindow { window_id, window_type, window_title, number_of_slots, entity_id }
    }
}

impl Wire for OpenWindow {
    open spec fn valid(m: OpenWindowModel) -> bool {
        &&& UnsignedByte::valid(m.window_id)
        &&& VarString::valid(m.window_type)
        &&& VarString::valid(m.window_title)
        &&& UnsignedByte::valid(m.number_of_slots)
        &&& (m.window_type == "EntityHorse"@) == (m.entity_id is Some)
        &&& m.entity_id matches Some(v) ==> Int::valid(v)
    }

    open spec fn wire(m: OpenWindowModel) -> Seq<u8> {
        UnsignedByte::wire(m.window_id)
            + VarString::wire(m.window_type)
            + VarString::wire(m.window_title)
            + UnsignedByte::wire(m.number_of_slots)
            + only_if(m.entity_id is Some, Int::wire(m.entity_id.unwrap()))
    }

    open spec fn decoded(s: Seq<u8>) -> Option<(OpenWindowModel, int)> {
        let r0 = UnsignedByte::decoded(s);
        let n0 = taken(r0);
        let f_window_id = read(r0);
        let r1 = VarString::decoded(s.skip(n0));
        let n1 = n0 + taken(r1);
        let f_window_type = read(r1);
        let r2 = VarString::decoded(s.skip(n1));
        let n2 = n1 + taken(r2);
        let f_window_title = read(r2);
        let r3 = UnsignedByte::decoded(s.skip(n2));
        let n3 = n2 + taken(r3);
        let f_number_of_slots = read(r3);
        let r4 = if f_window_type == "EntityHorse"@ {
            present(Int::decoded(s.skip(n3)))
        } else {
            Some((None, 0))
        };
        let n4 = n3 + taken(r4);
        let f_entity_id = read(r4);
        if r0 is Some && r1 is Some && r2 is Some && r3 is Some && r4 is Some {
            Some(
                (
                    OpenWindowModel {
                        window_id: f_window_id,
                        window_type: f_window_type,
                        window_title: f_window_title,
                        number_of_slots: f_number_of_slots,
                        entity_id: f_entity_id,
                    },
                    n4,
                ),
            )
        } else {
            None
        }
    }

    fn decode(data: &[u8]) -> (r: Option<(Self, usize)>) {
        let (f_window_id, k0) = match <UnsignedByte as Wire>::decode(data) {
            Some(x) => x,
            None => {
                return None;
            },
        };
        proof {
            UnsignedByte::lemma_decoded_bounds(data@);
        }
        let n0 = k0;
        let (f_window_type, k1) = match <VarString as Wire>::decode(tail(data, n0)) {
            Some(x) => x,
            None => {
                return None;
            },
        };
        proof {
            VarString::lemma_decoded_bounds(data@.skip(n0 as int));
        }
        let n1 = n0 + k1;
        let (f_window_title, k2) = match <VarString as Wire>::decode(tail(data, n1)) {
            Some(x) => x,
            None => {
                return None;
            },
        };
        proof {
            VarString::lemma_decoded_bounds(data@.skip(n1 as int));
        }
        let n2 = n1 + k2;
        let (f_number_of_slots, k3) = match <UnsignedByte as Wire>::decode(tail(data, n2)) {
            Some(x) => x,
            None => {
                return None;
            },
        };
        proof {
            UnsignedByte::lemma_decoded_bounds(data@.skip(n2 as int));
        }
        let n3 = n2 + k3;
        let (f_entity_id, k4) = if is_horse_window(&f_window_type) {
            match <Int as Wire>::decode(tail(data, n3)) {
                Some((v, k)) => (Some(v), k),
                None => {
                    return None;
                },
            }
        } else {
            (None, 0)
        };
        proof {
            Int::lemma_decoded_bounds(data@.skip(n3 as int));
        }
        let n4 = n3 + k4;
        Some(
            (
                OpenWindow {
                    window_id: f_window_id,
                    window_type: f_window_type,
                    window_title: f_window_title,
                    number_of_slots: f_number_of_slots,
                    entity_id: f_entity_id,
                },
                n4,
            ),
        )
    }

    fn encode(&self, out: &mut Vec<u8>) {
        self.window_id.encode(out);
        self.window_type.encode(out);
        self.window_title.encode(out);
        self.number_of_slots.encode(out);
        match &self.entity_id {
            Some(v) => {
                v.encode(out);
            },
            None => {},
        }
        assert(out@ =~= old(out)@ + Self::wire(self@));
    }

    fn check(&self) -> (b: bool) {
        self.window_id.check()
            && self.window_type.check()
            && self.window_title.check()
            && self.number_of_slots.check()
            && ((is_horse_window(&self.window_type)) == self.entity_id.is_some())
            && (match &self.entity_id {
            Some(v) => v.check(),
            None => true,
        })
    }

    proof fn lemma_decoded_bounds(s: Seq<u8>) {
        let r0 = UnsignedByte::decoded(s);
        UnsignedByte::lemma_decoded_bounds(s);
        let n0 = taken(r0);
        let f_window_id = read(r0);
        let r1 = VarString::decoded(s.skip(n0));
        VarString::lemma_decoded_bounds(s.skip(n0));
        let n1 = n0 + taken(r1);
        let f_window_type = read(r1);
        let r2 = VarString::decoded(s.skip(n1));
        VarString::lemma_decoded_bounds(s.skip(n1));
        let n2 = n1 + taken(r2);
        let f_window_title = read(r2);
        let r3 = UnsignedByte::decoded(s.skip(n2));
        UnsignedByte::lemma_decoded_bounds(s.skip(n2));
        let n3 = n2 + taken(r3);
        let f_number_of_slots = read(r3);
        let r4 = if f_window_type == "EntityHorse"@ {
            present(Int::decoded(s.skip(n3)))
        } else {
            Some((None, 0))
        };
        Int::lemma_decoded_bounds(s.skip(n3));
        let n4 = n3 + taken(r4);
        let f_entity_id = read(r4);
    }

    proof fn lemma_decoded_wire(m: OpenWindowModel, rest: Seq<u8>) {
        let s = Self::wire(m) + rest;
        let w0 = UnsignedByte::wire(m.window_id);
        let w1 = VarString::wire(m.window_type);
        let w2 = VarString::wire(m.window_title);
        let w3 = UnsignedByte::wire(m.number_of_slots);
        let w4 = only_if(m.entity_id is Some, Int::wire(m.entity_id.unwrap()));
        let p0 = w0;
        let p1 = p0 + w1;
        let p2 = p1 + w2;
        let p3 = p2 + w3;
        let p4 = p3 + w4;
        let t4 = rest;
        let t3 = w4 + t4;
        let t2 = w3 + t3;
        let t1 = w2 + t2;
        let t0 = w1 + t1;
        assert(s == p4 + t4);
        lemma_join(p3, w4, t4);
        lemma_join(p2, w3, t3);
        lemma_join(p1, w2, t2);
        lemma_join(p0, w1, t1);
        assert(s.skip(0) =~= s);
        let a0 = 0int;
        lemma_field_read::<UnsignedByte>(s, a0, m.window_id, t0);
        let a1 = a0 + w0.len();
        lemma_field_read::<VarString>(s, a1, m.window_type, t1);
        let a2 = a1 + w1.len();
        lemma_field_read::<VarString>(s, a2, m.window_title, t2);
        let a3 = a2 + w2.len();
        lemma_field_read::<UnsignedByte>(s, a3, m.number_of_slots, t3);
        let a4 = a3 + w3.len();
        match m.entity_id {
            Some(v) => {
                lemma_field_read::<Int>(s, a4, v, t4);
            },
            None => {
                assert(w4 + t4 =~= t4);
            },
        }
    }
}

impl ClientboundPacket for OpenWindow {
    open spec fn listed() -> IDS {
        IDS::OpenWindow
    }

    open spec fn parsed(s: Seq<u8>) -> Option<OpenWindowModel> {
        match Self::decoded(s) {
            Some((m, _)) => Some(m),
            None => None,
        }
    }

    fn parse(data: &[u8]) -> (r: Result<Self, String>) {
        match Self::decode(data) {
            Some((p, _)) => Ok(p),
            None => Err(malformed("OpenWindow")),
        }
    }

    fn id() -> (r: IDS) {
        IDS::OpenWindow
    }
}

/// A window is to be closed.
#[derive(Debug, Clone, Copy, PartialEq, Eq, Structural)]
pub struct CloseWindowClientbound {
    pub window_id: UnsignedByte,
}

impl View for CloseWindowClientbound {
    type V = CloseWindowClientbound;

    open spec fn view(&self) -> CloseWindowClientbound {
        *self
    }
}

impl CloseWindowClientbound {
    /// A packet of the given fields.
    pub fn new(window_id: UnsignedByte) -> (r: Self)
        ensures
            r == (CloseWindowClientbound { window_id }),
    {
        CloseWindowClientbound { window_id }
    }
}

impl Wire for CloseWindowClientbound {
    open spec fn valid(m: CloseWindowClientbound) -> bool {
        &&& UnsignedByte::valid(m.window_id)
    }

    open spec fn wire(m: CloseWindowClientbound) -> Seq<u8> {
        UnsignedByte::wire(m.window_id)
    }

    open spec fn decoded(s: Seq<u8>) -> Option<(CloseWindowClientbound, int)> {
        let r0 = UnsignedByte::decoded(s);
        let n0 = taken(r0);
        let f_window_id = read(r0);
        if r0 is Some {
            Some((CloseWindowClientbound { window_id: f_window_id }, n0))
        } else {
            None
        }
    }

    fn decode(data: &[u8]) -> (r: Option<(Self, usize)>) {
        let (f_window_id, k0) = match <UnsignedByte as Wire>::decode(data) {
            Some(x) => x,
            None => {
                return None;
            },
        };
        proof {
            UnsignedByte::lemma_decoded_bounds(data@);
        }
        let n0 = k0;
        Some((CloseWindowClientbound { window_id: f_window_id }, n0))
    }

    fn encode(&self, out: &mut Vec<u8>) {
        self.window_id.encode(out);
        assert(out@ =~= old(out)@ + Self::wire(self@));
    }

    fn check(&self) -> (b: bool) {
        self.window_id.check()
    }

    proof fn lemma_decoded_bounds(s: Seq<u8>) {
        let r0 = UnsignedByte::decoded(s);
        UnsignedByte::lemma_decoded_bounds(s);
        let n0 = taken(r0);
        let f_window_id = read(r0);
    }

    proof fn lemma_decoded_wire(m: CloseWindowClientbound, rest: Seq<u8>) {
        let s = Self::wire(m) + rest;
        let w0 = UnsignedByte::wire(m.window_id);
        let p0 = w0;
        let t0 = rest;
        assert(s == p0 + t0);
        assert(s.skip(0) =~= s);
        let a0 = 0int;
        lemma_field_read::<UnsignedByte>(s, a0, m.window_id, t0);
    }
}

impl ClientboundPacket for CloseWindowClientbound {
    open spec fn listed() -> IDS {
        IDS::CloseWindowClientbound
    }

    open spec fn parsed(s: Seq<u8>) -> Option<CloseWindowClientbound> {
        match Self::decoded(s) {
            Some((m, _)) => Some(m),
            None => None,
        }
    }

    fn parse(data: &[u8]) -> (r: Result<Self, String>) {
        match Self::decode(data) {
            Some((p, _)) => Ok(p),
            None => Err(malformed("CloseWindowClientbound")),
        }
    }

    fn id() -> (r: IDS) {
        IDS::CloseWindowClientbound
    }
}

/// What one slot of a window holds.
#[derive(Debug, Clone, PartialEq, Eq)]
pub struct SetSlot {
    pub window_id: Byte,
    pub slot: Short,
    pub slot_data: Slot,
}

/// What a `SetSlot` holds.
pub struct SetSlotModel {
    pub window_id: Byte,
    pub slot: Short,
    pub slot_data: SlotModel,
}

impl View for SetSlot {
    type V = SetSlotModel;

    open spec fn view(&self) -> SetSlotModel {
        SetSlotModel {
            window_id: self.window_id@,
            slot: self.slot@,
            slot_data: self.slot_data@,
        }
    }
}

impl SetSlot {
    /// A packet of the given fields.
    pub fn new(window_id: Byte, slot: Short, slot_data: Slot) -> (r: Self)
        ensures
            r == (SetSlot { window_id, slot, slot_data }),
    {
        SetSlot { window_id, slot, slot_data }
    }
}

impl Wire for SetSlot {
    open spec fn valid(m: SetSlotModel) -> bool {
        &&& Byte::valid(m.window_id)
        &&& Short::valid(m.slot)
        &&& Slot::valid(m.slot_data)
    }

    open spec fn wire(m: SetSlotModel) -> Seq<u8> {
        Byte::wire(m.window_id)
            + Short::wire(m.slot)
            + Slot::wire(m.slot_data)
    }

    open spec fn decoded(s: Seq<u8>) -> Option<(SetSlotModel, int)> {
        let r0 = Byte::decoded(s);
        let n0 = taken(r0);
        let f_window_id = read(r0);
        let r1 = Short::decoded(s.skip(n0));
        let n1 = n0 + taken(r1);
        let f_slot = read(r1);
        let r2 = Slot::decoded(s.skip(n1));
        let n2 = n1 + taken(r2);
        let f_slot_data = read(r2);
        if r0 is Some && r1 is Some && r2 is Some {
            Some(
                (
                    SetSlotModel {
                        window_id: f_window_id,
                        slot: f_slot,
                        slot_data: f_slot_data,
                    },
                    n2,
                ),
            )
        } else {
            None
        }
    }

    fn decode(data: &[u8]) -> (r: Option<(Self, usize)>) {
        let (f_window_id, k0) = match <Byte as Wire>::decode(data) {
            Some(x) => x,
            None => {
                return None;
            },
        };
        proof {
            Byte::lemma_decoded_bounds(data@);
        }
        let n0 = k0;
        let (f_slot, k1) = match <Short as Wire>::decode(tail(data, n0)) {
            Some(x) => x,
            None => {
                return None;
            },
        };
        proof {
            Short::lemma_decoded_bounds(data@.skip(n0 as int));
        }
        let n1 = n0 + k1;
        let (f_slot_data, k2) = match <Slot as Wire>::decode(tail(data, n1)) {
            Some(x) => x,
            None => {
                return None;
            },
        };
        proof {
            Slot::lemma_decoded_bounds(data@.skip(n1 as int));
        }
        let n2 = n1 + k2;
        Some((SetSlot { window_id: f_window_id, slot: f_slot, slot_data: f_slot_data }, n2))
    }

    fn encode(&self, out: &mut Vec<u8>) {
        self.window_id.encode(out);
        self.slot.encode(out);
        self.slot_data.encode(out);
        assert(out@ =~= old(out)@ + Self::wire(self@));
    }

    fn check(&self) -> (b: bool) {
        self.window_id.check()
            && self.slot.check()
            && self.slot_data.check()
    }

    proof fn lemma_decoded_bounds(s: Seq<u8>) {
        let r0 = Byte::decoded(s);
        Byte::lemma_decoded_bounds(s);
        let n0 = taken(r0);
        let f_window_id = read(r0);
        let r1 = Short::decoded(s.skip(n0));
        Short::lemma_decoded_bounds(s.skip(n0));
        let n1 = n0 + taken(r1);
        let f_slot = read(r1);
        let r2 = Slot::decoded(s.skip(n1));
        Slot::lemma_decoded_bounds(s.skip(n1));
        let n2 = n1 + taken(r2);
        let f_slot_data = read(r2);
    }

    proof fn lemma_decoded_wire(m: SetSlotModel, rest: Seq<u8>) {
        let s = Self::wire(m) + rest;
        let w0 = Byte::wire(m.window_id);
        let w1 = Short::wire(m.slot);
        let w2 = Slot::wire(m.slot_data);
        let p0 = w0;
        let p1 = p0 + w1;
        let p2 = p1 + w2;
        let t2 = rest;
        let t1 = w2 + t2;
        let t0 = w1 + t1;
        assert(s == p2 + t2);
        lemma_join(p1, w2, t2);
        lemma_join(p0, w1, t1);
        assert(s.skip(0) =~= s);
        let a0 = 0int;
        lemma_field_read::<Byte>(s, a0, m.window_id, t0);
        let a1 = a0 + w0.len();
        lemma_field_read::<Short>(s, a1, m.slot, t1);
        let a2 = a1 + w1.len();
        lemma_field_read::<Slot>(s, a2, m.slot_data, t2);
    }
}

impl ClientboundPacket for SetSlot {
    open spec fn listed() -> IDS {
        IDS::SetSlot
    }

    open spec fn parsed(s: Seq<u8>) -> Option<SetSlotModel> {
        match Self::decoded(s) {
            Some((m, _)) => Some(m),
            None => None,
        }
    }

    fn parse(data: &[u8]) -> (r: Result<Self, String>) {
        match Self::decode(data) {
            Some((p, _)) => Ok(p),
            None => Err(malformed("SetSlot")),
        }
    }

    fn id() -> (r: IDS) {
        IDS::SetSlot
    }
}

/// What all slots of a window hold. The slots are counted by a `Short`.
#[derive(Debug, Clone, PartialEq, Eq)]
pub struct WindowItems {
    pub window_id: UnsignedByte,
    pub slots: ShortCountedArray<Slot>,
}

/// What a `WindowItems` holds.
pub struct WindowItemsModel {
    pub window_id: UnsignedByte,
    pub slots: Seq<SlotModel>,
}

impl View for WindowItems {
    type V = WindowItemsModel;

    open spec fn view(&self) -> WindowItemsModel {
        WindowItemsModel {
            window_id: self.window_id@,
            slots: self.slots@,
        }
    }
}

impl WindowItems {
    /// A packet of the given fields.
    pub fn new(window_id: UnsignedByte, slots: ShortCountedArray<Slot>) -> (r: Self)
        ensures
            r == (WindowItems { window_id, slots }),
    {
        WindowItems { window_id, slots }
    }
}

impl Wire for WindowItems {
    open spec fn valid(m: WindowItemsModel) -> bool {
        &&& UnsignedByte::valid(m.window_id)
        &&& ShortCountedArray::<Slot>::valid(m.slots)
    }

    open spec fn wire(m: WindowItemsModel) -> Seq<u8> {
        UnsignedByte::wire(m.window_id)
            + ShortCountedArray::<Slot>::wire(m.slots)
    }

    open spec fn decoded(s: Seq<u8>) -> Option<(WindowItemsModel, int)> {
        let r0 = UnsignedByte::decoded(s);
        let n0 = taken(r0);
        let f_window_id = read(r0);
        let r1 = ShortCountedArray::<Slot>::decoded(s.skip(n0));
        let n1 = n0 + taken(r1);
        let f_slots = read(r1);
        if r0 is Some && r1 is Some {
            Some((WindowItemsModel { window_id: f_window_id, slots: f_slots }, n1))
        } else {
            None
        }
    }

    fn decode(data: &[u8]) -> (r: Option<(Self, usize)>) {
        let (f_window_id, k0) = match <UnsignedByte as Wire>::decode(data) {
            Some(x) => x,
            None => {
                return None;
            },
        };
        proof {
            UnsignedByte::lemma_decoded_bounds(data@);
        }
        let n0 = k0;
        let (f_slots, k1) = match <ShortCountedArray<Slot> as Wire>::decode(tail(data, n0)) {
            Some(x) => x,
            None => {
                return None;
            },
        };
        proof {
            ShortCountedArray::<Slot>::lemma_decoded_bounds(data@.skip(n0 as int));
        }
        let n1 = n0 + k1;
        Some((WindowItems { window_id: f_window_id, slots: f_slots }, n1))
    }

    fn encode(&self, out: &mut Vec<u8>) {
        self.window_id.encode(out);
        self.slots.encode(out);
        assert(out@ =~= old(out)@ + Self::wire(self@));
    }

    fn check(&self) -> (b: bool) {
        self.window_id.check()
            && self.slots.check()
    }

    proof fn lemma_decoded_bounds(s: Seq<u8>) {
        let r0 = UnsignedByte::decoded(s);
        UnsignedByte::lemma_decoded_bounds(s);
        let n0 = taken(r0);
        let f_window_id = read(r0);
        let r1 = ShortCountedArray::<Slot>::decoded(s.skip(n0));
        ShortCountedArray::<Slot>::lemma_decoded_bounds(s.skip(n0));
        let n1 = n0 + taken(r1);
        let f_slots = read(r1);
    }

    proof fn lemma_decoded_wire(m: WindowItemsModel, rest: Seq<u8>) {
        let s = Self::wire(m) + rest;
        let w0 = UnsignedByte::wire(m.window_id);
        let w1 = ShortCountedArray::<Slot>::wire(m.slots);
        let p0 = w0;
        let p1 = p0 + w1;
        let t1 = rest;
        let t0 = w1 + t1;
        assert(s == p1 + t1);
        lemma_join(p0, w1, t1);
        assert(s.skip(0) =~= s);
        let a0 = 0int;
        lemma_field_read::<UnsignedByte>(s, a0, m.window_id, t0);
        let a1 = a0 + w0.len();
        lemma_field_read::<ShortCountedArray<Slot>>(s, a1, m.slots, t1);
    }
}

impl ClientboundPacket for WindowItems {
    open spec fn listed() -> IDS {
        IDS::WindowItems
    }

    open spec fn parsed(s: Seq<u8>) -> Option<WindowItemsModel> {
        match Self::decoded(s) {
            Some((m, _)) => Some(m),
            None => None,
        }
    }

    fn parse(data: &[u8]) -> (r: Result<Self, String>) {
        match Self::decode(data) {
            Some((p, _)) => Ok(p),
            None => Err(malformed("WindowItems")),
        }
    }

    fn id() -> (r: IDS) {
        IDS::WindowItems
    }
}

/// A property of a window: the progress of a furnace, the cost of an enchantment.
#[derive(Debug, Clone, Copy, PartialEq, Eq, Structural)]
pub struct WindowProperty {
    pub window_id: UnsignedByte,
    pub property: Short,
    pub value: Short,
}

impl View for WindowProperty {
    type V = WindowProperty;

    open spec fn view(&self) -> WindowProperty {
        *self
    }
}

impl WindowProperty {
    /// A packet of the given fields.
    pub fn new(window_id: UnsignedByte, property: Short, value: Short) -> (r: Self)
        ensures
            r == (WindowProperty { window_id, property, value }),
    {
        WindowProperty { window_id, property, value }
    }
}

impl Wire for WindowProperty {
    open spec fn valid(m: WindowProperty) -> bool {
        &&& UnsignedByte::valid(m.window_id)
        &&& Short::valid(m.property)
        &&& Short::valid(m.value)
    }

    open spec fn wire(m: WindowProperty) -> Seq<u8> {
        UnsignedByte::wire(m.window_id)
            + Short::wire(m.property)
            + Short::wire(m.value)
    }

    open spec fn decoded(s: Seq<u8>) -> Option<(WindowProperty, int)> {
        let r0 = UnsignedByte::decoded(s);
        let n0 = taken(r0);
        let f_window_id = read(r0);
        let r1 = Short::decoded(s.skip(n0));
        let n1 = n0 + taken(r1);
        let f_property = read(r1);
        let r2 = Short::decoded(s.skip(n1));
        let n2 = n1 + taken(r2);
        let f_value = read(r2);
        if r0 is Some && r1 is Some && r2 is Some {
            Some(
                (
                    WindowProperty {
                        window_id: f_window_id,
                        property: f_property,
                        value: f_value,
                    },
                    n2,
                ),
            )
        } else {
            None
        }
    }

    fn decode(data: &[u8]) -> (r: Option<(Self, usize)>) {
        let (f_window_id, k0) = match <UnsignedByte as Wire>::decode(data) {
            Some(x) => x,
            None => {
                return None;
            },
        };
        proof {
            UnsignedByte::lemma_decoded_bounds(data@);
        }
        let n0 = k0;
        let (f_property, k1) = match <Short as Wire>::decode(tail(data, n0)) {
            Some(x) => x,
            None => {
                return None;
            },
        };
        proof {
            Short::lemma_decoded_bounds(data@.skip(n0 as int));
        }
        let n1 = n0 + k1;
        let (f_value, k2) = match <Short as Wire>::decode(tail(data, n1)) {
            Some(x) => x,
            None => {
                return None;
            },
        };
        proof {
            Short::lemma_decoded_bounds(data@.skip(n1 as int));
        }
        let n2 = n1 + k2;
        Some((WindowProperty { window_id: f_window_id, property: f_property, value: f_value }, n2))
    }

    fn encode(&self, out: &mut Vec<u8>) {
        self.window_id.encode(out);
        self.property.encode(out);
        self.value.encode(out);
        assert(out@ =~= old(out)@ + Self::wire(self@));
    }

    fn check(&self) -> (b: bool) {
        self.window_id.check()
            && self.property.check()
            && self.value.check()
    }

    proof fn lemma_decoded_bounds(s: Seq<u8>) {
        let r0 = UnsignedByte::decoded(s);
        UnsignedByte::lemma_decoded_bounds(s);
        let n0 = taken(r0);
        let f_window_id = read(r0);
        let r1 = Short::decoded(s.skip(n0));
        Short::lemma_decoded_bounds(s.skip(n0));
        let n1 = n0 + taken(r1);
        let f_property = read(r1);
        let r2 = Short::decoded(s.skip(n1));
        Short::lemma_decoded_bounds(s.skip(n1));
        let n2 = n1 + taken(r2);
        let f_value = read(r2);
    }

    proof fn lemma_decoded_wire(m: WindowProperty, rest: Seq<u8>) {
        let s = Self::wire(m) + rest;
        let w0 = UnsignedByte::wire(m.window_id);
        let w1 = Short::wire(m.property);
        let w2 = Short::wire(m.value);
        let p0 = w0;
        let p1 = p0 + w1;
        let p2 = p1 + w2;
        let t2 = rest;
        let t1 = w2 + t2;
        let t0 = w1 + t1;
        assert(s == p2 + t2);
        lemma_join(p1, w2, t2);
        lemma_join(p0, w1, t1);
        assert(s.skip(0) =~= s);
        let a0 = 0int;
        lemma_field_read::<UnsignedByte>(s, a0, m.window_id, t0);
        let a1 = a0 + w0.len();
        lemma_field_read::<Short>(s, a1, m.property, t1);
        let a2 = a1 + w1.len();
        lemma_field_read::<Short>(s, a2, m.value, t2);
    }
}

impl ClientboundPacket for WindowProperty {
    open spec fn listed() -> IDS {
        IDS::WindowProperty
    }

    open spec fn parsed(s: Seq<u8>) -> Option<WindowProperty> {
        match Self::decoded(s) {
            Some((m, _)) => Some(m),
            None => None,
        }
    }

    fn parse(data: &[u8]) -> (r: Result<Self, String>) {
        match Self::decode(data) {
            Some((p, _)) => Ok(p),
            None => Err(malformed("WindowProperty")),
        }
    }

    fn id() -> (r: IDS) {
        IDS::WindowProperty
    }
}

/// Whether the server has accepted an action in a window.
#[derive(Debug, Clone, Copy, PartialEq, Eq, Structural)]
pub struct ConfirmTransactionClientbound {
    pub window_id: Byte,
    pub action_number: Short,
    pub accepted: Boolean,
}

impl View for ConfirmTransactionClientbound {
    type V = ConfirmTransactionClientbound;

    open spec fn view(&self) -> ConfirmTransactionClientbound {
        *self
    }
}

impl ConfirmTransactionClientbound {
    /// A packet of the given fields.
    pub fn new(window_id: Byte, action_number: Short, accepted: Boolean) -> (r: Self)
        ensures
            r == (ConfirmTransactionClientbound { window_id, action_number, accepted }),
    {
        ConfirmTransactionClientbound { window_id, action_number, accepted }
    }
}

impl Wire for ConfirmTransactionClientbound {
    open spec fn valid(m: ConfirmTransactionClientbound) -> bool {
        &&& Byte::valid(m.window_id)
        &&& Short::valid(m.action_number)
        &&& Boolean::valid(m.accepted)
    }

    open spec fn wire(m: ConfirmTransactionClientbound) -> Seq<u8> {
        Byte::wire(m.window_id)
            + Short::wire(m.action_number)
            + Boolean::wire(m.accepted)
    }

    open spec fn decoded(s: Seq<u8>) -> Option<(ConfirmTransactionClientbound, int)> {
        let r0 = Byte::decoded(s);
        let n0 = taken(r0);
        let f_window_id = read(r0);
        let r1 = Short::decoded(s.skip(n0));
        let n1 = n0 + taken(r1);
        let f_action_number = read(r1);
        let r2 = Boolean::decoded(s.skip(n1));
        let n2 = n1 + taken(r2);
        let f_accepted = read(r2);
        if r0 is Some && r1 is Some && r2 is Some {
            Some(
                (
                    ConfirmTransactionClientbound {
                        window_id: f_window_id,
                        action_number: f_action_number,
                        accepted: f_accepted,
                    },
                    n2,
                ),
            )
        } else {
            None
        }
    }

    fn decode(data: &[u8]) -> (r: Option<(Self, usize)>) {
        let (f_window_id, k0) = match <Byte as Wire>::decode(data) {
            Some(x) => x,
            None => {
                return None;
            },
        };
        proof {
            Byte::lemma_decoded_bounds(data@);
        }
        let n0 = k0;
        let (f_action_number, k1) = match <Short as Wire>::decode(tail(data, n0)) {
            Some(x) => x,
            None => {
                return None;
            },
        };
        proof {
            Short::lemma_decoded_bounds(data@.skip(n0 as int));
        }
        let n1 = n0 + k1;
        let (f_accepted, k2) = match <Boolean as Wire>::decode(tail(data, n1)) {
            Some(x) => x,
            None => {
                return None;
            },
        };
        proof {
            Boolean::lemma_decoded_bounds(data@.skip(n1 as int));
        }
        let n2 = n1 + k2;
        Some(
            (
                ConfirmTransactionClientbound {
                    window_id: f_window_id,
                    action_number: f_action_number,
                    accepted: f_accepted,
                },
                n2,
            ),
        )
    }

    fn encode(&self, out: &mut Vec<u8>) {
        self.window_id.encode(out);
        self.action_number.encode(out);
        self.accepted.encode(out);
        assert(out@ =~= old(out)@ + Self::wire(self@));
    }

    fn check(&self) -> (b: bool) {
        self.window_id.check()
            && self.action_number.check()
            && self.accepted.check()
    }

    proof fn lemma_decoded_bounds(s: Seq<u8>) {
        let r0 = Byte::decoded(s);
        Byte::lemma_decoded_bounds(s);
        let n0 = taken(r0);
        let f_window_id = read(r0);
        let r1 = Short::decoded(s.skip(n0));
        Short::lemma_decoded_bounds(s.skip(n0));
        let n1 = n0 + taken(r1);
        let f_action_number = read(r1);
        let r2 = Boolean::decoded(s.skip(n1));
        Boolean::lemma_decoded_bounds(s.skip(n1));
        let n2 = n1 + taken(r2);
        let f_accepted = read(r2);
    }

    proof fn lemma_decoded_wire(m: ConfirmTransactionClientbound, rest: Seq<u8>) {
        let s = Self::wire(m) + rest;
        let w0 = Byte::wire(m.window_id);
        let w1 = Short::wire(m.action_number);
        let w2 = Boolean::wire(m.accepted);
        let p0 = w0;
        let p1 = p0 + w1;
        let p2 = p1 + w2;
        let t2 = rest;
        let t1 = w2 + t2;
        let t0 = w1 + t1;
        assert(s == p2 + t2);
        lemma_join(p1, w2, t2);
        lemma_join(p0, w1, t1);
        assert(s.skip(0) =~= s);
        let a0 = 0int;
        lemma_field_read::<Byte>(s, a0, m.window_id, t0);
        let a1 = a0 + w0.len();
        lemma_field_read::<Short>(s, a1, m.action_number, t1);
        let a2 = a1 + w1.len();
        lemma_field_read::<Boolean>(s, a2, m.accepted, t2);
    }
}

impl ClientboundPacket for ConfirmTransactionClientbound {
    open spec fn listed() -> IDS {
        IDS::ConfirmTransactionClientbound
    }

    open spec fn parsed(s: Seq<u8>) -> Option<ConfirmTransactionClientbound> {
        match Self::decoded(s) {
            Some((m, _)) => Some(m),
            None => None,
        }
    }

    fn parse(data: &[u8]) -> (r: Result<Self, String>) {
        match Self::decode(data) {
            Some((p, _)) => Ok(p),
            None => Err(malformed("ConfirmTransactionClientbound")),
        }
    }

    fn id() -> (r: IDS) {
        IDS::ConfirmTransactionClientbound
    }
}

/// Which slot of the hotbar is selected.
#[derive(Debug, Clone, Copy, PartialEq, Eq, Structural)]
pub struct HeldItemChangeClientbound {
    pub slot: Byte,
}

impl View for HeldItemChangeClientbound {
    type V = HeldItemChangeClientbound;

    open spec fn view(&self) -> HeldItemChangeClientbound {
        *self
    }
}

impl HeldItemChangeClientbound {
    /// A packet of the given fields.
    pub fn new(slot: Byte) -> (r: Self)
        ensures
            r == (HeldItemChangeClientbound { slot }),
    {
        HeldItemChangeClientbound { slot }
    }
}

impl Wire for HeldItemChangeClientbound {
    open spec fn valid(m: HeldItemChangeClientbound) -> bool {
        &&& Byte::valid(m.slot)
    }

    open spec fn wire(m: HeldItemChangeClientbound) -> Seq<u8> {
        Byte::wire(m.slot)
    }

    open spec fn decoded(s: Seq<u8>) -> Option<(HeldItemChangeClientbound, int)> {
        let r0 = Byte::decoded(s);
        let n0 = taken(r0);
        let f_slot = read(r0);
        if r0 is Some {
            Some((HeldItemChangeClientbound { slot: f_slot }, n0))
        } else {
            None
        }
    }

    fn decode(data: &[u8]) -> (r: Option<(Self, usize)>) {
        let (f_slot, k0) = match <Byte as Wire>::decode(data) {
            Some(x) => x,
            None => {
                return None;
            },
        };
        proof {
            Byte::lemma_decoded_bounds(data@);
        }
        let n0 = k0;
        Some((HeldItemChangeClientbound { slot: f_slot }, n0))
    }

    fn encode(&self, out: &mut Vec<u8>) {
        self.slot.encode(out);
        assert(out@ =~= old(out)@ + Self::wire(self@));
    }

    fn check(&self) -> (b: bool) {
        self.slot.check()
    }

    proof fn lemma_decoded_bounds(s: Seq<u8>) {
        let r0 = Byte::decoded(s);
        Byte::lemma_decoded_bounds(s);
        let n0 = taken(r0);
        let f_slot = read(r0);
    }

    proof fn lemma_decoded_wire(m: HeldItemChangeClientbound, rest: Seq<u8>) {
        let s = Self::wire(m) + rest;
        let w0 = Byte::wire(m.slot);
        let p0 = w0;
        let t0 = rest;
        assert(s == p0 + t0);
        assert(s.skip(0) =~= s);
        let a0 = 0int;
        lemma_field_read::<Byte>(s, a0, m.slot, t0);
    }
}

impl ClientboundPacket for HeldItemChangeClientbound {
    open spec fn listed() -> IDS {
        IDS::HeldItemChangeClientbound
    }

    open spec fn parsed(s: Seq<u8>) -> Option<HeldItemChangeClientbound> {
        match Self::decoded(s) {
            Some((m, _)) => Some(m),
            None => None,
        }
    }

    fn parse(data: &[u8]) -> (r: Result<Self, String>) {
        match Self::decode(data) {
            Some((p, _)) => Ok(p),
            None => Err(malformed("HeldItemChangeClientbound")),
        }
    }

    fn id() -> (r: IDS) {
        IDS::HeldItemChangeClientbound
    }
}

} // verus!
