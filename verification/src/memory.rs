use crate::error::{Error, is_arm_fault};
use crate::text::{hex32, hex32_text, dec_text, join3};
use vstd::prelude::*;
use vstd::string::*;

verus! {

/// A 32-bit guest virtual address.
#[derive(Clone, Copy, Debug, PartialEq, Eq, Structural)]
pub struct GuestAddr(pub u32);

/// The message reported when an address computation leaves the 32-bit space.
pub open spec fn address_overflow_text(base: u32, offset: u32) -> Seq<char> {
    "guest address "@ + hex32_text(base) + " + "@ + hex32_text(offset) + " overflows"@
}

impl GuestAddr {
    /// `self + offset`, failing when the sum leaves the 32-bit address space.
    pub fn checked_add(self, offset: u32) -> (r: Result<GuestAddr, Error>)
        ensures
            self.0 + offset <= u32::MAX ==> r == Ok::<GuestAddr, Error>(
                GuestAddr((self.0 + offset) as u32),
            ),
            self.0 + offset > u32::MAX ==> is_arm_fault(r, address_overflow_text(self.0, offset)),
    {
        match self.0.checked_add(offset) {
            Some(v) => Ok(GuestAddr(v)),
            None => {
                let m = String::from_str("guest address ").concat(hex32(self.0).as_str()).concat(
                    " + ",
                ).concat(hex32(offset).as_str()).concat(" overflows");
                Err(Error::ArmFault(m))
            },
        }
    }
}

/// Access rights of a guest mapping.
#[allow(non_camel_case_types)]
#[derive(Clone, Copy, Debug, PartialEq, Eq, Structural)]
pub enum Permissions {
    NONE,
    READ,
    WRITE,
    EXECUTE,
    READ_WRITE,
    READ_EXECUTE,
    WRITE_EXECUTE,
    READ_WRITE_EXECUTE,
}

impl Permissions {
    pub open spec fn can_read(self) -> bool {
        self is READ || self is READ_WRITE || self is READ_EXECUTE || self is READ_WRITE_EXECUTE
    }

    pub open spec fn can_write(self) -> bool {
        self is WRITE || self is READ_WRITE || self is WRITE_EXECUTE || self is READ_WRITE_EXECUTE
    }

    pub open spec fn can_execute(self) -> bool {
        self is EXECUTE || self is READ_EXECUTE || self is WRITE_EXECUTE
            || self is READ_WRITE_EXECUTE
    }

    /// Whether the rights include those `kind` needs.
    pub fn allows(self, kind: Access) -> (b: bool)
        ensures
            b == allows(self, kind),
    {
        match kind {
            Access::Read => matches!(self, Permissions::READ | Permissions::READ_WRITE | Permissions::READ_EXECUTE | Permissions::READ_WRITE_EXECUTE),
            Access::Write => matches!(self, Permissions::WRITE | Permissions::READ_WRITE | Permissions::WRITE_EXECUTE | Permissions::READ_WRITE_EXECUTE),
            Access::Fetch => matches!(self, Permissions::EXECUTE | Permissions::READ_EXECUTE | Permissions::WRITE_EXECUTE | Permissions::READ_WRITE_EXECUTE),
        }
    }
}

/// The kind of a guest memory access.
#[derive(Clone, Copy, Debug, PartialEq, Eq, Structural)]
pub enum Access {
    Read,
    Write,
    Fetch,
}

pub open spec fn allows(p: Permissions, kind: Access) -> bool {
    match kind {
        Access::Read => p.can_read(),
        Access::Write => p.can_write(),
        Access::Fetch => p.can_execute(),
    }
}

pub open spec fn access_name(kind: Access) -> Seq<char> {
    match kind {
        Access::Read => "read"@,
        Access::Write => "write"@,
        Access::Fetch => "instruction fetch"@,
    }
}

/// The message of a refused guest memory access of `len` bytes at `address`.
pub open spec fn access_fault_text(kind: Access, address: u32, len: nat) -> Seq<char> {
    "guest memory "@ + access_name(kind) + " of "@ + dec_text(len) + " bytes at "@ + hex32_text(
        address,
    ) + " is not permitted"@
}

/// Abstract view of one mapping.
pub struct RegionView {
    pub base: int,
    pub data: Seq<u8>,
    pub perms: Permissions,
    pub name: Seq<char>,
}

impl RegionView {
    pub open spec fn end(self) -> int {
        self.base + self.data.len()
    }

    pub open spec fn contains(self, a: int) -> bool {
        self.base <= a < self.end()
    }
}

/// Abstract view of the guest address space: the list of its mappings.
pub struct MemView {
    pub regions: Seq<RegionView>,
}

/// Little-endian 16-bit value of two bytes.
pub open spec fn le_u16(b: Seq<u8>) -> u16 {
    ((b[0] as u16) | ((b[1] as u16) << 8u16)) as u16
}

/// Little-endian 32-bit value of four bytes.
pub open spec fn le_u32(b: Seq<u8>) -> u32 {
    ((b[0] as u32) | ((b[1] as u32) << 8u32) | ((b[2] as u32) << 16u32) | ((b[3] as u32)
        << 24u32)) as u32
}

/// Little-endian bytes of a 16-bit value.
pub open spec fn u16_bytes(v: u16) -> Seq<u8> {
    seq![(v & 0xff) as u8, ((v >> 8u16) & 0xff) as u8]
}

/// Little-endian bytes of a 32-bit value.
pub open spec fn u32_bytes(v: u32) -> Seq<u8> {
    seq![
        (v & 0xff) as u8,
        ((v >> 8u32) & 0xff) as u8,
        ((v >> 16u32) & 0xff) as u8,
        ((v >> 24u32) & 0xff) as u8,
    ]
}

impl MemView {
    /// Mappings are non-empty, lie inside the 32-bit space and are disjoint.
    pub open spec fn wf(self) -> bool {
        &&& forall|i: int|
            0 <= i < self.regions.len() ==> {
                &&& 0 <= #[trigger] self.regions[i].base
                &&& self.regions[i].data.len() > 0
                &&& self.regions[i].end() <= 0x1_0000_0000
            }
        &&& forall|i: int, j: int|
            0 <= i < self.regions.len() && 0 <= j < self.regions.len() && i != j ==> {
                ||| #[trigger] self.regions[i].end() <= self.regions[j].base
                ||| #[trigger] self.regions[j].end() <= self.regions[i].base
            }
    }

    /// The index of the first mapping at or after `i` that contains `a`.
    pub open spec fn find_from(self, a: int, i: int) -> Option<int>
        decreases self.regions.len() - i,
    {
        if i < 0 || i >= self.regions.len() {
            None
        } else if self.regions[i].contains(a) {
            Some(i)
        } else {
            self.find_from(a, i + 1)
        }
    }

    /// The index of the mapping that contains `a`, if any.
    pub open spec fn find(self, a: int) -> Option<int> {
        self.find_from(a, 0)
    }

    pub open spec fn mapped(self, a: int) -> bool {
        self.find(a) is Some
    }

    /// The byte stored at a mapped address.
    pub open spec fn byte(self, a: int) -> u8 {
        let r = self.regions[self.find(a).unwrap()];
        r.data[a - r.base]
    }

    /// The permissions of the mapping that holds a mapped address.
    pub open spec fn perms_at(self, a: int) -> Permissions {
        self.regions[self.find(a).unwrap()].perms
    }

    /// Every address in `a .. a + n` is mapped.
    pub open spec fn all_mapped(self, a: int, n: int) -> bool {
        &&& a + n <= 0x1_0000_0000
        &&& forall|k: int| 0 <= k < n ==> #[trigger] self.mapped(a + k)
    }

    /// Every address in `a .. a + n` is mapped with the rights `kind` needs.
    pub open spec fn accessible(self, a: int, n: int, kind: Access) -> bool {
        &&& a + n <= 0x1_0000_0000
        &&& forall|k: int|
            0 <= k < n ==> #[trigger] self.mapped(a + k) && allows(self.perms_at(a + k), kind)
    }

    /// The bytes at `a .. a + n`.
    pub open spec fn bytes(self, a: int, n: nat) -> Seq<u8> {
        Seq::new(n, |k: int| self.byte(a + k))
    }

    /// A checked access of `n` bytes at `a`.
    pub open spec fn load(self, a: u32, n: nat, kind: Access) -> Result<Seq<u8>, Seq<char>> {
        if self.accessible(a as int, n as int, kind) {
            Ok(self.bytes(a as int, n))
        } else {
            Err(access_fault_text(kind, a, n))
        }
    }

    /// The address space after storing `bytes` at `a`.
    pub open spec fn stored(self, a: int, bytes: Seq<u8>) -> MemView {
        MemView {
            regions: Seq::new(
                self.regions.len(),
                |i: int|
                    {
                        let r = self.regions[i];
                        RegionView {
                            data: Seq::new(
                                r.data.len(),
                                |j: int|
                                    if a <= r.base + j < a + bytes.len() {
                                        bytes[r.base + j - a]
                                    } else {
                                        r.data[j]
                                    },
                            ),
                            ..r
                        }
                    },
            ),
        }
    }

    /// A checked store of `bytes` at `a`.
    pub open spec fn store(self, a: u32, bytes: Seq<u8>) -> Result<MemView, Seq<char>> {
        if self.accessible(a as int, bytes.len() as int, Access::Write) {
            Ok(self.stored(a as int, bytes))
        } else {
            Err(access_fault_text(Access::Write, a, bytes.len()))
        }
    }

    pub open spec fn read_u8(self, a: u32) -> Result<u8, Seq<char>> {
        match self.load(a, 1, Access::Read) {
            Ok(b) => Ok(b[0]),
            Err(e) => Err(e),
        }
    }

    pub open spec fn read_u16(self, a: u32) -> Result<u16, Seq<char>> {
        match self.load(a, 2, Access::Read) {
            Ok(b) => Ok(le_u16(b)),
            Err(e) => Err(e),
        }
    }

    pub open spec fn read_u32(self, a: u32) -> Result<u32, Seq<char>> {
        match self.load(a, 4, Access::Read) {
            Ok(b) => Ok(le_u32(b)),
            Err(e) => Err(e),
        }
    }

    pub open spec fn fetch_u16(self, a: u32) -> Result<u16, Seq<char>> {
        match self.load(a, 2, Access::Fetch) {
            Ok(b) => Ok(le_u16(b)),
            Err(e) => Err(e),
        }
    }

    pub open spec fn fetch_u32(self, a: u32) -> Result<u32, Seq<char>> {
        match self.load(a, 4, Access::Fetch) {
            Ok(b) => Ok(le_u32(b)),
            Err(e) => Err(e),
        }
    }

    pub open spec fn write_u8(self, a: u32, v: u8) -> Result<MemView, Seq<char>> {
        self.store(a, seq![v])
    }

    pub open spec fn write_u16(self, a: u32, v: u16) -> Result<MemView, Seq<char>> {
        self.store(a, u16_bytes(v))
    }

    pub open spec fn write_u32(self, a: u32, v: u32) -> Result<MemView, Seq<char>> {
        self.store(a, u32_bytes(v))
    }

    /// Whether a mapping named `name` of `len` bytes at `base` may be added.
    pub open spec fn can_map(self, base: u32, len: nat) -> bool {
        &&& len > 0
        &&& base + len <= 0x1_0000_0000
        &&& forall|i: int|
            0 <= i < self.regions.len() ==> #[trigger] self.regions[i].end() <= base
                || base + len <= self.regions[i].base
    }

    /// The message reported when a mapping cannot be added.
    pub open spec fn map_fault_text(self, base: u32, len: nat, name: Seq<char>) -> Seq<char> {
        if len == 0 {
            "guest mapping "@ + name + " is empty"@
        } else if base + len > 0x1_0000_0000 {
            "guest mapping "@ + name + " at "@ + hex32_text(base) + " exceeds the address space"@
        } else {
            "guest mapping "@ + name + " at "@ + hex32_text(base)
                + " overlaps an existing mapping"@
        }
    }

    /// Adding a mapping that holds `data`.
    pub open spec fn mapped_with(
        self,
        base: u32,
        data: Seq<u8>,
        perms: Permissions,
        name: Seq<char>,
    ) -> Result<MemView, Seq<char>> {
        if self.can_map(base, data.len()) {
            Ok(
                MemView {
                    regions: self.regions.push(
                        RegionView { base: base as int, data, perms, name },
                    ),
                },
            )
        } else {
            Err(self.map_fault_text(base, data.len(), name))
        }
    }
}

struct Region {
    base: u32,
    data: Vec<u8>,
    perms: Permissions,
    name: String,
}

impl Region {
    closed spec fn view(self) -> RegionView {
        RegionView { base: self.base as int, data: self.data@, perms: self.perms, name: self.name@ }
    }
}

/// Permission-checked guest memory made of disjoint mappings.
pub struct GuestMemory {
    regions: Vec<Region>,
}

impl View for GuestMemory {
    type V = MemView;

    closed spec fn view(&self) -> MemView {
        MemView { regions: Seq::new(self.regions@.len(), |i: int| self.regions@[i].view()) }
    }
}

/// The outcome of a mutation that either succeeds with the address space `s`
/// names or is refused with its message and leaves everything unchanged.
pub open spec fn store_matches(
    r: Result<(), Error>,
    before: MemView,
    after: MemView,
    s: Result<MemView, Seq<char>>,
) -> bool {
    match s {
        Ok(m) => r is Ok && after == m,
        Err(t) => is_arm_fault(r, t) && after == before,
    }
}

/// `r` is `Ok(v)` exactly when `s` is `Ok(v)`, and otherwise an `ArmFault` whose
/// message is the one `s` carries.
pub open spec fn matches_spec<T>(r: Result<T, Error>, s: Result<T, Seq<char>>) -> bool {
    match s {
        Ok(v) => r == Ok::<T, Error>(v),
        Err(t) => is_arm_fault(r, t),
    }
}


/// Within a well-formed address space, the mapping `find` names contains the
/// address and no other mapping does.
pub proof fn lemma_find_unique(m: MemView, a: int, i: int)
    requires
        m.wf(),
        0 <= i <= m.regions.len(),
    ensures
        m.find_from(a, i) matches Some(j) ==> i <= j < m.regions.len() && m.regions[j].contains(a)
            && forall|k: int| 0 <= k < m.regions.len() && k != j ==> !m.regions[k].contains(a),
        m.find_from(a, i) is None ==> forall|k: int|
            i <= k < m.regions.len() ==> !m.regions[k].contains(a),
    decreases m.regions.len() - i,
{
    if i < m.regions.len() {
        lemma_find_unique(m, a, i + 1);
        if m.regions[i].contains(a) {
            assert forall|k: int| 0 <= k < m.regions.len() && k != i implies !m.regions[k].contains(
                a,
            ) by {
                assert(m.regions[i].end() <= m.regions[k].base || m.regions[k].end()
                    <= m.regions[i].base);
            }
        }
    }
}

/// The address containing `a` is found whenever some mapping contains it.
pub proof fn lemma_find_some(m: MemView, a: int, i: int, j: int)
    requires
        0 <= i <= j < m.regions.len(),
        m.regions[j].contains(a),
    ensures
        m.find_from(a, i) is Some,
    decreases j - i,
{
    if !m.regions[i].contains(a) {
        lemma_find_some(m, a, i + 1, j);
    }
}

/// Two address spaces with the same mapping bounds agree on `find_from`.
pub proof fn lemma_same_layout_find(m1: MemView, m2: MemView, a: int, i: int)
    requires
        m1.regions.len() == m2.regions.len(),
        forall|k: int|
            0 <= k < m1.regions.len() ==> #[trigger] m1.regions[k].base == m2.regions[k].base
                && m1.regions[k].data.len() == m2.regions[k].data.len(),
    ensures
        m1.find_from(a, i) == m2.find_from(a, i),
    decreases m1.regions.len() - i,
{
    if 0 <= i < m1.regions.len() {
        assert(m1.regions[i].base == m2.regions[i].base);
        lemma_same_layout_find(m1, m2, a, i + 1);
    }
}

/// Storing bytes keeps every mapping's bounds, rights and name, and therefore
/// keeps which addresses are mapped and with which rights.
pub proof fn lemma_stored_layout(m: MemView, a: int, bytes: Seq<u8>)
    ensures
        m.stored(a, bytes).regions.len() == m.regions.len(),
        forall|k: int|
            0 <= k < m.regions.len() ==> (#[trigger] m.stored(a, bytes).regions[k]).base
                == m.regions[k].base && m.stored(a, bytes).regions[k].data.len()
                == m.regions[k].data.len() && m.stored(a, bytes).regions[k].perms
                == m.regions[k].perms && m.stored(a, bytes).regions[k].name == m.regions[k].name,
        forall|x: int| #[trigger] m.stored(a, bytes).find(x) == m.find(x),
        m.wf() ==> m.stored(a, bytes).wf(),
{
    let s = m.stored(a, bytes);
    assert forall|x: int| #[trigger] s.find(x) == m.find(x) by {
        lemma_same_layout_find(s, m, x, 0);
    }
    if m.wf() {
        assert forall|i: int, j: int|
            0 <= i < s.regions.len() && 0 <= j < s.regions.len() && i != j implies {
            ||| #[trigger] s.regions[i].end() <= s.regions[j].base
            ||| #[trigger] s.regions[j].end() <= s.regions[i].base
        } by {
            assert(m.regions[i].end() <= m.regions[j].base || m.regions[j].end()
                <= m.regions[i].base);
        }
    }
}

/// Reading what was just stored gives back the stored value, and every
/// address outside the stored range keeps its byte.
pub proof fn lemma_stored_bytes(m: MemView, a: int, bytes: Seq<u8>, x: int)
    requires
        m.wf(),
        m.mapped(x),
    ensures
        a <= x < a + bytes.len() ==> m.stored(a, bytes).byte(x) == bytes[x - a],
        !(a <= x < a + bytes.len()) ==> m.stored(a, bytes).byte(x) == m.byte(x),
{
    lemma_stored_layout(m, a, bytes);
    lemma_find_unique(m, x, 0);
    assert(m.stored(a, bytes).find(x) == m.find(x));
}

/// Storing nothing changes nothing.
pub proof fn lemma_stored_empty(m: MemView, a: int)
    ensures
        m.stored(a, Seq::<u8>::empty().subrange(0, 0)) == m,
        forall|s: Seq<u8>| #[trigger] s.subrange(0, 0).len() == 0 ==> m.stored(a, s.subrange(0, 0)) == m,
{
    assert forall|s: Seq<u8>| #[trigger] s.subrange(0, 0).len() == 0 implies m.stored(a, s.subrange(0, 0)) == m by {
        let t = m.stored(a, s.subrange(0, 0));
        assert forall|i: int| 0 <= i < m.regions.len() implies #[trigger] t.regions[i] == m.regions[i] by {
            assert(t.regions[i].data =~= m.regions[i].data);
        }
        assert(t.regions =~= m.regions);
    }
    let e = Seq::<u8>::empty();
    assert(e.subrange(0, 0).len() == 0);
}

/// Storing a prefix and then the next byte equals storing the longer prefix.
pub proof fn lemma_stored_extend(m: MemView, a: int, s: Seq<u8>, k: int)
    requires
        0 <= k < s.len(),
    ensures
        m.stored(a, s.subrange(0, k)).stored(a + k, seq![s[k]]) == m.stored(a, s.subrange(0, k + 1)),
{
    let t1 = m.stored(a, s.subrange(0, k)).stored(a + k, seq![s[k]]);
    let t2 = m.stored(a, s.subrange(0, k + 1));
    assert forall|i: int| 0 <= i < m.regions.len() implies #[trigger] t1.regions[i] == t2.regions[i] by {
        assert(t1.regions[i].data =~= t2.regions[i].data);
    }
    assert(t1.regions =~= t2.regions);
}

/// A store followed by a load of the same range gives back the stored bytes,
/// wherever the range may also be read.
pub proof fn lemma_store_then_load(m: MemView, a: u32, bytes: Seq<u8>, kind: Access)
    requires
        m.wf(),
        m.store(a, bytes) is Ok,
        m.accessible(a as int, bytes.len() as int, kind),
    ensures
        m.store(a, bytes)->Ok_0.load(a, bytes.len(), kind) == Ok::<Seq<u8>, Seq<char>>(bytes),
{
    let m2 = m.stored(a as int, bytes);
    lemma_stored_layout(m, a as int, bytes);
    assert forall|k: int| 0 <= k < bytes.len() implies #[trigger] m2.mapped(a + k) && allows(
        m2.perms_at(a + k),
        kind,
    ) by {
        assert(m.accessible(a as int, bytes.len() as int, kind));
        assert(m.mapped(a + k));
        assert(allows(m.perms_at(a + k), kind));
        assert(m2.find(a + k) == m.find(a + k));
        lemma_find_unique(m, a + k, 0);
        let i = m.find(a + k).unwrap();
        assert(m2.regions[i].perms == m.regions[i].perms);
    }
    assert(m2.accessible(a as int, bytes.len() as int, kind));
    assert forall|k: int| 0 <= k < bytes.len() implies #[trigger] m2.bytes(a as int, bytes.len())[k]
        == bytes[k] by {
        assert(m.mapped(a + k));
        lemma_stored_bytes(m, a as int, bytes, a + k);
    }
    assert(m2.bytes(a as int, bytes.len()) =~= bytes);
}

/// A store changes no byte outside the stored range, and no mapping's bounds,
/// rights or name.
pub proof fn lemma_store_frame(m: MemView, a: u32, bytes: Seq<u8>, x: int)
    requires
        m.wf(),
        m.store(a, bytes) is Ok,
        m.mapped(x),
        !(a <= x < a + bytes.len()),
    ensures
        m.store(a, bytes)->Ok_0.mapped(x),
        m.store(a, bytes)->Ok_0.byte(x) == m.byte(x),
        m.store(a, bytes)->Ok_0.perms_at(x) == m.perms_at(x),
        m.store(a, bytes)->Ok_0.regions.len() == m.regions.len(),
        forall|i: int|
            0 <= i < m.regions.len() ==> (#[trigger] m.store(a, bytes)->Ok_0.regions[i]).base
                == m.regions[i].base && m.store(a, bytes)->Ok_0.regions[i].data.len()
                == m.regions[i].data.len() && m.store(a, bytes)->Ok_0.regions[i].perms
                == m.regions[i].perms && m.store(a, bytes)->Ok_0.regions[i].name
                == m.regions[i].name,
{
    lemma_stored_layout(m, a as int, bytes);
    lemma_stored_bytes(m, a as int, bytes, x);
    lemma_find_unique(m, x, 0);
    let i = m.find(x).unwrap();
    assert(m.stored(a as int, bytes).regions[i].perms == m.regions[i].perms);
}

/// A 32-bit write followed by a 32-bit read of the same address gives back
/// the written value, where the address may be read.
pub proof fn lemma_write_then_read_u32(m: MemView, a: u32, v: u32)
    requires
        m.wf(),
        m.write_u32(a, v) is Ok,
        m.accessible(a as int, 4, Access::Read),
    ensures
        m.write_u32(a, v)->Ok_0.read_u32(a) == Ok::<u32, Seq<char>>(v),
{
    lemma_store_then_load(m, a, u32_bytes(v), Access::Read);
    assert(le_u32(u32_bytes(v)) == v) by (bit_vector);
}

/// A 32-bit write leaves every word that does not overlap it as it was,
/// readable or not.
#[verifier::spinoff_prover]
pub proof fn lemma_write_u32_keeps_other_words(m: MemView, a: u32, v: u32, x: u32)
    requires
        m.wf(),
        m.write_u32(a, v) is Ok,
        x + 4 <= a || a + 4 <= x,
    ensures
        m.write_u32(a, v)->Ok_0.read_u32(x) == m.read_u32(x),
{
    let bytes = u32_bytes(v);
    let m2 = m.stored(a as int, bytes);
    lemma_stored_layout(m, a as int, bytes);
    assert(m.write_u32(a, v)->Ok_0 == m2);
    assert forall|y: int| #[trigger] m2.mapped(y) == m.mapped(y) by {
        assert(m2.find(y) == m.find(y));
    }
    assert forall|y: int| m.mapped(y) implies #[trigger] m2.perms_at(y) == m.perms_at(y) by {
        assert(m2.find(y) == m.find(y));
        lemma_find_unique(m, y, 0);
    }
    if m.accessible(x as int, 4, Access::Read) {
        lemma_stored_accessible(m, a as int, bytes, x as int, 4, Access::Read);
    }
    if m2.accessible(x as int, 4, Access::Read) {
        let xi = x as int;
        assert forall|k: int| 0 <= k < 4 implies #[trigger] m.mapped(xi + k) && allows(
            m.perms_at(xi + k),
            Access::Read,
        ) by {
            assert(m2.mapped(xi + k));
            assert(m2.find(xi + k) == m.find(xi + k));
            assert(m.mapped(xi + k));
            assert(m2.perms_at(xi + k) == m.perms_at(xi + k));
        }
        assert(xi + 4 <= 0x1_0000_0000);
        assert(m.accessible(xi, 4, Access::Read));
    }
    if m.accessible(x as int, 4, Access::Read) {
        assert(m2.bytes(x as int, 4) =~= m.bytes(x as int, 4)) by {
            assert forall|k: int| 0 <= k < 4 implies m2.bytes(x as int, 4)[k] == m.bytes(x as int, 4)[k] by {
                assert(m.mapped(x + k));
                lemma_store_frame(m, a, bytes, x + k);
            }
        }
    }
}

/// A 16-bit write followed by a 16-bit read of the same address gives back
/// the written value, where the address may be read.
pub proof fn lemma_write_then_read_u16(m: MemView, a: u32, v: u16)
    requires
        m.wf(),
        m.write_u16(a, v) is Ok,
        m.accessible(a as int, 2, Access::Read),
    ensures
        m.write_u16(a, v)->Ok_0.read_u16(a) == Ok::<u16, Seq<char>>(v),
{
    lemma_store_then_load(m, a, u16_bytes(v), Access::Read);
    assert(le_u16(u16_bytes(v)) == v) by (bit_vector);
}

/// A byte write followed by a byte read of the same address gives back the
/// written byte, where the address may be read.
pub proof fn lemma_write_then_read_u8(m: MemView, a: u32, v: u8)
    requires
        m.wf(),
        m.write_u8(a, v) is Ok,
        m.accessible(a as int, 1, Access::Read),
    ensures
        m.write_u8(a, v)->Ok_0.read_u8(a) == Ok::<u8, Seq<char>>(v),
{
    lemma_store_then_load(m, a, seq![v], Access::Read);
}

/// A new mapping reads back the bytes it was made with, when its rights
/// allow the access, and leaves every earlier mapping as it was.
pub proof fn lemma_map_then_load(
    m: MemView,
    base: u32,
    data: Seq<u8>,
    perms: Permissions,
    name: Seq<char>,
    kind: Access,
)
    requires
        m.wf(),
        m.mapped_with(base, data, perms, name) is Ok,
        allows(perms, kind),
    ensures
        m.mapped_with(base, data, perms, name)->Ok_0.wf(),
        m.mapped_with(base, data, perms, name)->Ok_0.load(base, data.len(), kind) == Ok::<
            Seq<u8>,
            Seq<char>,
        >(data),
        forall|x: int|
            #[trigger] m.mapped(x) ==> m.mapped_with(base, data, perms, name)->Ok_0.mapped(x)
                && m.mapped_with(base, data, perms, name)->Ok_0.byte(x) == m.byte(x),
{
    let m2 = m.mapped_with(base, data, perms, name)->Ok_0;
    let n = m.regions.len() as int;
    assert(m2.regions == m.regions.push(RegionView { base: base as int, data, perms, name }));
    assert(m2.regions[n].base == base);
    assert forall|i: int, j: int|
        0 <= i < m2.regions.len() && 0 <= j < m2.regions.len() && i != j implies {
        ||| #[trigger] m2.regions[i].end() <= m2.regions[j].base
        ||| #[trigger] m2.regions[j].end() <= m2.regions[i].base
    } by {
        if i < n && j < n {
            assert(m.regions[i].end() <= m.regions[j].base || m.regions[j].end()
                <= m.regions[i].base);
        } else if i == n {
            assert(m.regions[j].end() <= base || base + data.len() <= m.regions[j].base);
        } else {
            assert(m.regions[i].end() <= base || base + data.len() <= m.regions[i].base);
        }
    }
    assert(m2.wf());
    assert forall|k: int|
        #![trigger m2.mapped(base + k)]
        #![trigger m2.byte(base + k)]
        0 <= k < data.len() implies m2.mapped(base + k) && allows(m2.perms_at(base + k), kind)
            && m2.byte(base + k) == data[k] by {
        assert(m2.regions[n].contains(base + k));
        lemma_find_some(m2, base + k, 0, n);
        lemma_find_unique(m2, base + k, 0);
        assert(m2.find(base + k) == Some(n));
    }
    assert(m2.bytes(base as int, data.len()) =~= data);
    assert forall|x: int| #[trigger] m.mapped(x) implies m2.mapped(x) && m2.byte(x) == m.byte(x) by {
        lemma_find_unique(m, x, 0);
        let i = m.find(x).unwrap();
        assert(m2.regions[i] == m.regions[i]);
        assert(m2.regions[i].contains(x));
        lemma_find_some(m2, x, 0, i);
        lemma_find_unique(m2, x, 0);
        assert(m2.find(x) == Some(i));
    }
}

/// Storing two runs of bytes one after the other is storing them joined.
pub proof fn lemma_stored_concat(m: MemView, a: int, x: Seq<u8>, y: Seq<u8>)
    ensures
        m.stored(a, x).stored(a + x.len(), y) == m.stored(a, x + y),
{
    let t1 = m.stored(a, x).stored(a + x.len(), y);
    let t2 = m.stored(a, x + y);
    assert forall|i: int| 0 <= i < m.regions.len() implies #[trigger] t1.regions[i] == t2.regions[i] by {
        assert(t1.regions[i].data =~= t2.regions[i].data);
    }
    assert(t1.regions =~= t2.regions);
}

/// Storing nothing changes nothing.
pub proof fn lemma_stored_nothing(m: MemView, a: int)
    ensures
        m.stored(a, Seq::empty()) == m,
{
    let t = m.stored(a, Seq::empty());
    assert forall|i: int| 0 <= i < m.regions.len() implies #[trigger] t.regions[i] == m.regions[i] by {
        assert(t.regions[i].data =~= m.regions[i].data);
    }
    assert(t.regions =~= m.regions);
}

/// Storing keeps which addresses may be accessed, and how.
pub proof fn lemma_stored_accessible(m: MemView, a: int, bytes: Seq<u8>, b: int, n: int, kind: Access)
    requires
        m.wf(),
        m.accessible(b, n, kind),
    ensures
        m.stored(a, bytes).accessible(b, n, kind),
{
    let m2 = m.stored(a, bytes);
    lemma_stored_layout(m, a, bytes);
    assert forall|k: int| 0 <= k < n implies #[trigger] m2.mapped(b + k) && allows(
        m2.perms_at(b + k),
        kind,
    ) by {
        assert(m.accessible(b, n, kind));
        assert(m.mapped(b + k));
        assert(allows(m.perms_at(b + k), kind));
        assert(m2.find(b + k) == m.find(b + k));
        lemma_find_unique(m, b + k, 0);
        let i = m.find(b + k).unwrap();
        assert(m2.regions[i].perms == m.regions[i].perms);
    }
}

/// A load inside a range that loads gives the matching part of it.
pub proof fn lemma_load_part(m: MemView, a: u32, n: nat, kind: Access, k: nat, j: nat)
    requires
        m.load(a, n, kind) is Ok,
        k + j <= n,
    ensures
        m.load((a + k) as u32, j, kind) == Ok::<Seq<u8>, Seq<char>>(
            m.load(a, n, kind)->Ok_0.subrange(k as int, (k + j) as int),
        ),
{
    assert(m.accessible(a as int, n as int, kind));
    assert forall|t: int| 0 <= t < j implies #[trigger] m.mapped((a + k) as u32 as int + t) && allows(
        m.perms_at((a + k) as u32 as int + t),
        kind,
    ) by {
        let q = k + t;
        assert(m.mapped(a as int + q));
        assert(allows(m.perms_at(a as int + q), kind));
        assert((a + k) as u32 as int + t == a as int + q);
    }
    if j > 0 {
        assert(a + k < 0x1_0000_0000);
        assert((a + k) as u32 as int == a + k);
        assert(m.accessible((a + k) as u32 as int, j as int, kind));
        assert(m.bytes((a + k) as u32 as int, j) =~= m.bytes(a as int, n).subrange(
            k as int,
            (k + j) as int,
        ));
    } else {
        assert(m.accessible((a + k) as u32 as int, 0, kind));
        assert(m.bytes((a + k) as u32 as int, 0) =~= m.bytes(a as int, n).subrange(
            k as int,
            k as int,
        ));
    }
}

/// Two address spaces with the same mappings: the same bounds, rights and
/// names, in the same order; only the bytes may differ.
pub open spec fn same_layout(a: MemView, b: MemView) -> bool {
    &&& a.regions.len() == b.regions.len()
    &&& forall|i: int|
        0 <= i < a.regions.len() ==> (#[trigger] b.regions[i]).base == a.regions[i].base
            && b.regions[i].data.len() == a.regions[i].data.len() && b.regions[i].perms
            == a.regions[i].perms && b.regions[i].name == a.regions[i].name
}

/// Every store keeps the layout.
pub proof fn lemma_store_keeps_layout()
    ensures
        forall|m: MemView, a: u32, bytes: Seq<u8>|
            #[trigger] m.store(a, bytes) is Ok ==> same_layout(m, m.store(a, bytes)->Ok_0),
{
    assert forall|m: MemView, a: u32, bytes: Seq<u8>| #[trigger] m.store(a, bytes) is Ok implies same_layout(
        m,
        m.store(a, bytes)->Ok_0,
    ) by {
        lemma_stored_layout(m, a as int, bytes);
    }
}

/// Keeping the layout is reflexive and transitive, keeps well-formedness and
/// keeps where every address is found.
pub proof fn lemma_same_layout_facts()
    ensures
        forall|a: MemView| #[trigger] same_layout(a, a),
        forall|a: MemView, b: MemView, c: MemView|
            #[trigger] same_layout(a, b) && #[trigger] same_layout(b, c) ==> same_layout(a, c),
        forall|a: MemView, b: MemView| #[trigger] same_layout(a, b) && a.wf() ==> b.wf(),
        forall|a: MemView, b: MemView, x: int|
            #[trigger] same_layout(a, b) ==> #[trigger] b.find(x) == a.find(x),
{
    assert forall|a: MemView, b: MemView| #[trigger] same_layout(a, b) && a.wf() implies b.wf() by {
        assert forall|i: int, j: int|
            0 <= i < b.regions.len() && 0 <= j < b.regions.len() && i != j implies {
            ||| #[trigger] b.regions[i].end() <= b.regions[j].base
            ||| #[trigger] b.regions[j].end() <= b.regions[i].base
        } by {
            assert(a.regions[i].end() <= a.regions[j].base || a.regions[j].end()
                <= a.regions[i].base);
        }
    }
    assert forall|a: MemView, b: MemView, x: int| #[trigger] same_layout(a, b) implies #[trigger] b.find(x)
        == a.find(x) by {
        lemma_same_layout_find(b, a, x, 0);
    }
}

impl GuestMemory {
    /// The mappings are non-empty, lie inside the address space and are disjoint.
    pub closed spec fn wf(&self) -> bool {
        self@.wf()
    }

    /// An empty address space.
    pub fn new() -> (m: Self)
        ensures
            m.wf(),
            m@.regions.len() == 0,
    {
        GuestMemory { regions: Vec::new() }
    }

    fn find_region(&self, a: u32) -> (r: Option<usize>)
        ensures
            match r {
                Some(i) => self@.find(a as int) == Some(i as int) && i < self@.regions.len(),
                None => self@.find(a as int) is None,
            },
    {
        let mut i: usize = 0;
        while i < self.regions.len()
            invariant
                0 <= i <= self.regions.len(),
                self@.find(a as int) == self@.find_from(a as int, i as int),
            decreases self.regions.len() - i,
        {
            let r = &self.regions[i];
            assert(self@.regions[i as int] == r.view());
            if r.base <= a && ((a - r.base) as usize) < r.data.len() {
                return Some(i);
            }
            i += 1;
        }
        None
    }

    /// Whether every byte of `a .. a + n` is mapped with the rights `kind` needs.
    pub fn check_access(&self, a: u32, n: usize, kind: Access) -> (b: bool)
        ensures
            b == self@.accessible(a as int, n as int, kind),
    {
        if (n as u64) > 0x1_0000_0000u64 - a as u64 {
            return false;
        }
        let mut k: usize = 0;
        while k < n
            invariant
                0 <= k <= n,
                a + n <= 0x1_0000_0000,
                forall|j: int|
                    0 <= j < k ==> #[trigger] self@.mapped(a + j) && allows(
                        self@.perms_at(a + j),
                        kind,
                    ),
            decreases n - k,
        {
            let address = a + k as u32;
            match self.find_region(address) {
                None => {
                    assert(!self@.mapped(a + k));
                    return false;
                },
                Some(i) => {
                    assert(self@.regions[i as int].perms == self.regions@[i as int].perms);
                    if !self.regions[i].perms.allows(kind) {
                        assert(self@.mapped(a + k));
                        assert(!allows(self@.perms_at(a + k), kind));
                        return false;
                    }
                },
            }
            k += 1;
        }
        true
    }

    /// Whether every byte of `address .. address + len` is mapped.
    pub fn is_mapped(&self, address: GuestAddr, len: usize) -> (b: bool)
        ensures
            b == self@.all_mapped(address.0 as int, len as int),
    {
        let a = address.0;
        if (len as u64) > 0x1_0000_0000u64 - a as u64 {
            return false;
        }
        let mut k: usize = 0;
        while k < len
            invariant
                0 <= k <= len,
                a == address.0,
                a + len <= 0x1_0000_0000,
                forall|j: int| 0 <= j < k ==> #[trigger] self@.mapped(a + j),
            decreases len - k,
        {
            if self.find_region(a + k as u32).is_none() {
                assert(!self@.mapped(a + k));
                return false;
            }
            k += 1;
        }
        true
    }

    fn access_fault(kind: Access, a: u32, n: usize) -> (e: Error)
        ensures
            e matches Error::ArmFault(m) && m@ == access_fault_text(kind, a, n as nat),
    {
        let name = match kind {
            Access::Read => "read",
            Access::Write => "write",
            Access::Fetch => "instruction fetch",
        };
        let m = String::from_str("guest memory ").concat(name).concat(" of ").concat(
            crate::text::decimal(n as u64).as_str(),
        ).concat(" bytes at ").concat(hex32(a).as_str()).concat(" is not permitted");
        Error::ArmFault(m)
    }

    /// Checks that `len` bytes at `address` are mapped with the rights
    /// `kind` needs, without touching them.
    pub fn check_range(&self, address: GuestAddr, len: usize, kind: Access) -> (r: Result<(), Error>)
        ensures
            self@.accessible(address.0 as int, len as int, kind) ==> r is Ok,
            !self@.accessible(address.0 as int, len as int, kind) ==> is_arm_fault(
                r,
                access_fault_text(kind, address.0, len as nat),
            ),
    {
        if self.check_access(address.0, len, kind) {
            Ok(())
        } else {
            Err(Self::access_fault(kind, address.0, len))
        }
    }

    /// A checked access of `n` bytes at `a` that needs the rights of `kind`.
    pub fn load(&self, a: u32, n: usize, kind: Access) -> (r: Result<Vec<u8>, Error>)
        requires
            self.wf(),
        ensures
            match self@.load(a, n as nat, kind) {
                Ok(b) => r matches Ok(v) && v@ == b,
                Err(t) => is_arm_fault(r, t),
            },
    {
        if !self.check_access(a, n, kind) {
            return Err(Self::access_fault(kind, a, n));
        }
        let mut out: Vec<u8> = Vec::new();
        let mut k: usize = 0;
        while k < n
            invariant
                0 <= k <= n,
                self@.wf(),
                self@.accessible(a as int, n as int, kind),
                out@.len() == k,
                forall|j: int| 0 <= j < k ==> out@[j] == #[trigger] self@.byte(a + j),
            decreases n - k,
        {
            let address = a + k as u32;
            assert(self@.mapped(a + k));
            match self.find_region(address) {
                Some(i) => {
                    let r = &self.regions[i];
                    proof {
                        lemma_find_unique(self@, address as int, 0);
                        assert(self@.regions[i as int] == r.view());
                    }
                    let b = r.data[(address - r.base) as usize];
                    out.push(b);
                },
                None => {
                    assert(false);
                },
            }
            k += 1;
        }
        assert(out@ =~= self@.bytes(a as int, n as nat));
        Ok(out)
    }

    fn store_byte(&mut self, a: u32, v: u8)
        requires
            old(self).wf(),
            old(self)@.mapped(a as int),
        ensures
            final(self)@ == old(self)@.stored(a as int, seq![v]),
            final(self).wf(),
    {
        let ghost before = self@;
        match self.find_region(a) {
            Some(i) => {
                proof {
                    lemma_find_unique(before, a as int, 0);
                    lemma_stored_layout(before, a as int, seq![v]);
                    assert(before.regions[i as int] == self.regions@[i as int].view());
                }
                let off = (a - self.regions[i].base) as usize;
                self.regions[i].data.set(off, v);
                proof {
                    assert forall|k: int| 0 <= k < before.regions.len() implies
                        #[trigger] self@.regions[k] == before.stored(a as int, seq![v]).regions[k] by {
                        if k == i {
                            assert(self@.regions[k].data =~= before.stored(a as int, seq![v]).regions[k].data);
                        } else {
                            assert(!before.regions[k].contains(a as int));
                            assert(self@.regions[k].data =~= before.stored(a as int, seq![v]).regions[k].data);
                        }
                    }
                    assert(self@.regions =~= before.stored(a as int, seq![v]).regions);
                }
            },
            None => {
                assert(false);
            },
        }
    }

    /// A checked store of `bytes` at `a`; nothing changes when it is refused.
    pub fn store(&mut self, a: u32, bytes: &[u8]) -> (r: Result<(), Error>)
        requires
            old(self).wf(),
        ensures
            final(self).wf(),
            match old(self)@.store(a, bytes@) {
                Ok(m) => r is Ok && final(self)@ == m,
                Err(t) => is_arm_fault(r, t) && final(self)@ == old(self)@,
            },
    {
        if !self.check_access(a, bytes.len(), Access::Write) {
            return Err(Self::access_fault(Access::Write, a, bytes.len()));
        }
        let ghost start = self@;
        let mut k: usize = 0;
        proof {
            lemma_stored_empty(start, a as int);
        }
        while k < bytes.len()
            invariant
                0 <= k <= bytes.len(),
                start.wf(),
                start.accessible(a as int, bytes@.len() as int, Access::Write),
                self@ == start.stored(a as int, bytes@.subrange(0, k as int)),
                self.wf(),
            decreases bytes.len() - k,
        {
            let ghost cur = self@;
            proof {
                lemma_stored_layout(start, a as int, bytes@.subrange(0, k as int));
                assert(start.mapped(a + k));
            }
            self.store_byte(a + k as u32, bytes[k]);
            proof {
                lemma_stored_extend(start, a as int, bytes@, k as int);
            }
            k += 1;
        }
        assert(bytes@.subrange(0, bytes@.len() as int) =~= bytes@);
        Ok(())
    }

    /// Reads `len` bytes.
    pub fn read(&self, address: GuestAddr, len: usize) -> (r: Result<Vec<u8>, Error>)
        requires
            self.wf(),
        ensures
            match self@.load(address.0, len as nat, Access::Read) {
                Ok(b) => r matches Ok(v) && v@ == b,
                Err(t) => is_arm_fault(r, t),
            },
    {
        self.load(address.0, len, Access::Read)
    }

    /// Writes `bytes`; nothing changes when the write is refused.
    pub fn write(&mut self, address: GuestAddr, bytes: &[u8]) -> (r: Result<(), Error>)
        requires
            old(self).wf(),
        ensures
            final(self).wf(),
            store_matches(r, old(self)@, final(self)@, old(self)@.store(address.0, bytes@)),
    {
        self.store(address.0, bytes)
    }

    pub fn read_u8(&self, address: GuestAddr) -> (r: Result<u8, Error>)
        requires
            self.wf(),
        ensures
            matches_spec(r, self@.read_u8(address.0)),
    {
        match self.load(address.0, 1, Access::Read) {
            Ok(b) => Ok(b[0]),
            Err(e) => Err(e),
        }
    }

    pub fn read_u16(&self, address: GuestAddr) -> (r: Result<u16, Error>)
        requires
            self.wf(),
        ensures
            matches_spec(r, self@.read_u16(address.0)),
    {
        match self.load(address.0, 2, Access::Read) {
            Ok(b) => Ok((b[0] as u16) | ((b[1] as u16) << 8u16)),
            Err(e) => Err(e),
        }
    }

    pub fn read_u32(&self, address: GuestAddr) -> (r: Result<u32, Error>)
        requires
            self.wf(),
        ensures
            matches_spec(r, self@.read_u32(address.0)),
    {
        match self.load(address.0, 4, Access::Read) {
            Ok(b) => Ok(
                (b[0] as u32) | ((b[1] as u32) << 8u32) | ((b[2] as u32) << 16u32) | ((b[3] as u32)
                    << 24u32),
            ),
            Err(e) => Err(e),
        }
    }

    /// Fetches a Thumb instruction halfword; the mapping must be executable.
    pub fn fetch_u16(&self, address: GuestAddr) -> (r: Result<u16, Error>)
        requires
            self.wf(),
        ensures
            matches_spec(r, self@.fetch_u16(address.0)),
    {
        match self.load(address.0, 2, Access::Fetch) {
            Ok(b) => Ok((b[0] as u16) | ((b[1] as u16) << 8u16)),
            Err(e) => Err(e),
        }
    }

    /// Fetches an A32 instruction word; the mapping must be executable.
    pub fn fetch_u32(&self, address: GuestAddr) -> (r: Result<u32, Error>)
        requires
            self.wf(),
        ensures
            matches_spec(r, self@.fetch_u32(address.0)),
    {
        match self.load(address.0, 4, Access::Fetch) {
            Ok(b) => Ok(
                (b[0] as u32) | ((b[1] as u32) << 8u32) | ((b[2] as u32) << 16u32) | ((b[3] as u32)
                    << 24u32),
            ),
            Err(e) => Err(e),
        }
    }

    pub fn write_u8(&mut self, address: GuestAddr, value: u8) -> (r: Result<(), Error>)
        requires
            old(self).wf(),
        ensures
            final(self).wf(),
            store_matches(r, old(self)@, final(self)@, old(self)@.write_u8(address.0, value)),
    {
        let bytes = vec![value];
        assert(bytes@ =~= seq![value]);
        self.store(address.0, bytes.as_slice())
    }

    pub fn write_u16(&mut self, address: GuestAddr, value: u16) -> (r: Result<(), Error>)
        requires
            old(self).wf(),
        ensures
            final(self).wf(),
            store_matches(r, old(self)@, final(self)@, old(self)@.write_u16(address.0, value)),
    {
        let bytes = vec![(value & 0xff) as u8, ((value >> 8u16) & 0xff) as u8];
        assert(bytes@ =~= u16_bytes(value));
        self.store(address.0, bytes.as_slice())
    }

    pub fn write_u32(&mut self, address: GuestAddr, value: u32) -> (r: Result<(), Error>)
        requires
            old(self).wf(),
        ensures
            final(self).wf(),
            store_matches(r, old(self)@, final(self)@, old(self)@.write_u32(address.0, value)),
    {
        let bytes = vec![
            (value & 0xff) as u8,
            ((value >> 8u32) & 0xff) as u8,
            ((value >> 16u32) & 0xff) as u8,
            ((value >> 24u32) & 0xff) as u8,
        ];
        assert(bytes@ =~= u32_bytes(value));
        self.store(address.0, bytes.as_slice())
    }

    /// Adds a zero-filled mapping of `len` bytes. The range is checked before
    /// its bytes are allocated.
    pub fn map(&mut self, base: GuestAddr, len: usize, permissions: Permissions, name: &str) -> (r:
        Result<(), Error>)
        requires
            old(self).wf(),
        ensures
            final(self).wf(),
            store_matches(
                r,
                old(self)@,
                final(self)@,
                old(self)@.mapped_with(base.0, Seq::new(len as nat, |i: int| 0u8), permissions, name@),
            ),
    {
        let checked = self.check_mapping(base, len, name);
        if checked.is_err() {
            return checked;
        }
        let data = vec![0u8; len];
        assert(data@ =~= Seq::new(len as nat, |i: int| 0u8));
        self.map_bytes(base, data, permissions, name)
    }

    /// Whether a mapping of `len` bytes may be added at `base`, and if not,
    /// the message its refusal carries.
    fn check_mapping(&self, base: GuestAddr, len: usize, name: &str) -> (r: Result<(), Error>)
        requires
            self.wf(),
        ensures
            self@.can_map(base.0, len as nat) ==> r is Ok,
            !self@.can_map(base.0, len as nat) ==> is_arm_fault(
                r,
                self@.map_fault_text(base.0, len as nat, name@),
            ),
    {
        if len == 0 {
            let m = join3("guest mapping ", name, " is empty");
            return Err(Error::ArmFault(m));
        }
        if (len as u64) > 0x1_0000_0000u64 - base.0 as u64 {
            let m = String::from_str("guest mapping ").concat(name).concat(" at ").concat(
                hex32(base.0).as_str(),
            ).concat(" exceeds the address space");
            return Err(Error::ArmFault(m));
        }
        let mut i: usize = 0;
        while i < self.regions.len()
            invariant
                0 <= i <= self.regions.len(),
                base.0 + len <= 0x1_0000_0000,
                self.wf(),
                len > 0,
                forall|k: int|
                    0 <= k < i ==> #[trigger] self@.regions[k].end() <= base.0 || base.0 + len
                        <= self@.regions[k].base,
            decreases self.regions.len() - i,
        {
            let r = &self.regions[i];
            assert(self@.regions[i as int] == r.view());
            assert(self@.regions[i as int].end() <= 0x1_0000_0000);
            if !(r.base as u64 + r.data.len() as u64 <= base.0 as u64 || base.0 as u64 + len as u64
                <= r.base as u64) {
                assert(!(self@.regions[i as int].end() <= base.0 || base.0 + len
                    <= self@.regions[i as int].base));
                assert(!self@.can_map(base.0, len as nat));
                let m = String::from_str("guest mapping ").concat(name).concat(" at ").concat(
                    hex32(base.0).as_str(),
                ).concat(" overlaps an existing mapping");
                return Err(Error::ArmFault(m));
            }
            i += 1;
        }
        Ok(())
    }

    /// Adds a mapping that holds `data`.
    pub fn map_bytes(&mut self, base: GuestAddr, data: Vec<u8>, permissions: Permissions, name: &str) -> (r:
        Result<(), Error>)
        requires
            old(self).wf(),
        ensures
            final(self).wf(),
            store_matches(
                r,
                old(self)@,
                final(self)@,
                old(self)@.mapped_with(base.0, data@, permissions, name@),
            ),
    {
        let checked = self.check_mapping(base, data.len(), name);
        if checked.is_err() {
            return checked;
        }
        let ghost before = self@;
        let region = Region { base: base.0, data, perms: permissions, name: String::from_str(name) };
        self.regions.push(region);
        proof {
            let expected = before.mapped_with(base.0, data@, permissions, name@);
            assert(self@.regions =~= expected->Ok_0.regions);
        }
        Ok(())
    }

}

} // verus!
