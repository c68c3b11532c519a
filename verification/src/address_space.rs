//! The guest address space a runtime starts from: its fixed mappings, the
//! platform table and the empty heap.
use crate::error::{is_arm_fault, Error};
use crate::guest_strings::{fault_matches, GuestFault};
use crate::heap_setup::{
    fresh_heap_writes, install_guest_heap, install_platform_table, lemma_setup_writes_succeed, table_writes, write_all,
};
use crate::layout::{
    guest_layout, layout_spec, GuestLayout, EXPANDED_SCREEN_BASE, HEAP_BASE, MAX_GUEST_HEAP_LEN, MIN_GUEST_RAM_LEN,
    SCREEN_BASE, SCREEN_STAGING_CAPACITY,
};
use crate::memory::{
    allows, lemma_find_some, lemma_find_unique, Access, GuestAddr, GuestMemory, MemView, Permissions, RegionView,
};
use crate::slots::{PLATFORM_DATA, PLATFORM_TABLE};
use vstd::prelude::*;

verus! {

/// Where the EXT stack lies, and its length.
pub const STACK_BASE: u32 = 0x3000_0000;
pub const STACK_LEN: usize = 0x4_0000;

/// The legacy keypad registers: three active-low 16-bit registers read by
/// old key scanners, all bits set while no key is down.
pub const LEGACY_KEYPAD_REGISTERS: u32 = 0x8011_0000;
pub const LEGACY_KEYPAD_REGISTERS_LEN: usize = 16;

/// The length of each platform resource array's backing.
pub const PLATFORM_RESOURCE_BACKING_LEN: usize = 0x1000;

/// Where the start-file parameter lies, and its length.
pub const START_FILE_PARAMETER_DATA: u32 = 0x0100_d000;
pub const START_FILE_PARAMETER_LEN: usize = 128;

/// One mapping: its base, its bytes, its rights and its name.
pub open spec fn mapping(base: u32, len: nat, fill: u8, name: Seq<char>) -> (u32, Seq<u8>, Permissions, Seq<char>) {
    (base, Seq::new(len, |i: int| fill), Permissions::READ_WRITE, name)
}

/// The mappings of a fresh address space for layout `l`, in the order they
/// are made: the platform table and data, the six resource arrays, the
/// start-file parameter, guest RAM, the EXT stack, the keypad registers and
/// the screen memory. All are readable and writable.
pub open spec fn address_space_plan(l: GuestLayout) -> Seq<(u32, Seq<u8>, Permissions, Seq<char>)> {
    seq![
        mapping(PLATFORM_TABLE, 0x1000, 0, "platform table"@),
        mapping(PLATFORM_DATA, 0x1000, 0, "platform data"@),
        mapping(0x0100_2000, 0x1000, 0, "platform bitmap array"@),
        mapping(0x0100_4000, 0x1000, 0, "platform tile array"@),
        mapping(0x0100_6000, 0x1000, 0, "platform map array"@),
        mapping(0x0100_8000, 0x1000, 0, "platform sound array"@),
        mapping(0x0100_a000, 0x1000, 0, "platform sprite array"@),
        mapping(0x0100_c000, 0x1000, 0, "platform SMS configuration"@),
        mapping(START_FILE_PARAMETER_DATA, 128, 0, "platform start-file parameter"@),
        mapping(HEAP_BASE, l.guest_ram_len as nat, 0, "guest RAM"@),
        mapping(STACK_BASE, 0x4_0000, 0, "EXT stack"@),
        mapping(LEGACY_KEYPAD_REGISTERS, 16, 0xff, "legacy keypad registers"@),
        mapping(l.screen_base, l.screen_memory_len as nat, 0, "screen memory"@),
    ]
}

/// Makes the mappings of `plan` in order, stopping at the first that cannot
/// be made, with its message.
pub open spec fn map_all(m: MemView, plan: Seq<(u32, Seq<u8>, Permissions, Seq<char>)>) -> (
    MemView,
    Option<Seq<char>>,
)
    decreases plan.len(),
{
    if plan.len() == 0 {
        (m, None)
    } else {
        match m.mapped_with(plan[0].0, plan[0].1, plan[0].2, plan[0].3) {
            Ok(next) => map_all(next, plan.drop_first()),
            Err(t) => (m, Some(t)),
        }
    }
}

/// Makes the fixed mappings of the guest address space for layout `l`, in
/// order; the first that cannot be made fails the call with its message and
/// leaves the earlier ones in place.
pub fn map_guest_address_space(memory: &mut GuestMemory, l: &GuestLayout) -> (r: Result<(), Error>)
    requires
        old(memory).wf(),
    ensures
        final(memory).wf(),
        final(memory)@ == map_all(old(memory)@, address_space_plan(*l)).0,
        match map_all(old(memory)@, address_space_plan(*l)).1 {
            None => r is Ok,
            Some(t) => is_arm_fault(r, t),
        },
{
    let entries: Vec<(u32, usize, u8, &str)> = vec![
        (PLATFORM_TABLE, 0x1000, 0, "platform table"),
        (PLATFORM_DATA, 0x1000, 0, "platform data"),
        (0x0100_2000, PLATFORM_RESOURCE_BACKING_LEN, 0, "platform bitmap array"),
        (0x0100_4000, PLATFORM_RESOURCE_BACKING_LEN, 0, "platform tile array"),
        (0x0100_6000, PLATFORM_RESOURCE_BACKING_LEN, 0, "platform map array"),
        (0x0100_8000, PLATFORM_RESOURCE_BACKING_LEN, 0, "platform sound array"),
        (0x0100_a000, PLATFORM_RESOURCE_BACKING_LEN, 0, "platform sprite array"),
        (0x0100_c000, PLATFORM_RESOURCE_BACKING_LEN, 0, "platform SMS configuration"),
        (START_FILE_PARAMETER_DATA, START_FILE_PARAMETER_LEN, 0, "platform start-file parameter"),
        (HEAP_BASE, l.guest_ram_len, 0, "guest RAM"),
        (STACK_BASE, STACK_LEN, 0, "EXT stack"),
        (LEGACY_KEYPAD_REGISTERS, LEGACY_KEYPAD_REGISTERS_LEN, 0xff, "legacy keypad registers"),
        (l.screen_base, l.screen_memory_len, 0, "screen memory"),
    ];
    let ghost plan = address_space_plan(*l);
    let ghost start = memory@;
    assert(plan.len() == entries@.len());
    assert forall|k: int| 0 <= k < plan.len() implies #[trigger] plan[k] == mapping(
        entries@[k].0,
        entries@[k].1 as nat,
        entries@[k].2,
        entries@[k].3@,
    ) by {}
    let mut i: usize = 0;
    assert(plan.subrange(0, plan.len() as int) =~= plan);
    while i < entries.len()
        invariant
            i <= entries.len(),
            entries@.len() == plan.len(),
            plan == address_space_plan(*l),
            forall|k: int| 0 <= k < plan.len() ==> #[trigger] plan[k] == mapping(
                entries@[k].0,
                entries@[k].1 as nat,
                entries@[k].2,
                entries@[k].3@,
            ),
            memory.wf(),
            start == old(memory)@,
            map_all(start, plan) == map_all(memory@, plan.subrange(i as int, plan.len() as int)),
        decreases entries.len() - i,
    {
        let (base, len, fill, name) = entries[i];
        let ghost rest = plan.subrange(i as int, plan.len() as int);
        assert(rest[0] == plan[i as int]);
        assert(rest.drop_first() =~= plan.subrange(i + 1, plan.len() as int));
        let ghost before = memory@;
        let r = if fill == 0 {
            assert(Seq::new(len as nat, |j: int| 0u8) =~= plan[i as int].1);
            memory.map(GuestAddr(base), len, Permissions::READ_WRITE, name)
        } else {
            let data = vec![fill; len];
            assert(data@ =~= plan[i as int].1);
            memory.map_bytes(GuestAddr(base), data, Permissions::READ_WRITE, name)
        };
        if r.is_err() {
            proof {
                let t = before.mapped_with(plan[i as int].0, plan[i as int].1, plan[i as int].2, plan[i as int].3);
                assert(t is Err);
                assert(map_all(before, rest) == (before, Some(t->Err_0)));
            }
            return r;
        }
        i = i + 1;
    }
    Ok(())
}

/// The guest address space for a `screen_width` x `screen_height` screen and
/// a heap of `heap_len` bytes, with its layout, or the first step's fault:
/// the layout, the fixed mappings, the platform table, then the empty heap.
pub open spec fn address_space_spec(screen_width: u16, screen_height: u16, heap_len: u32) -> Result<
    (MemView, GuestLayout),
    GuestFault,
> {
    match layout_spec(screen_width, screen_height, heap_len) {
        Err(t) => Err(GuestFault::Arm(t)),
        Ok(l) => {
            let (m1, e1) = map_all(MemView { regions: Seq::empty() }, address_space_plan(l));
            let (m2, e2) = write_all(m1, table_writes());
            let (m3, e3) = write_all(m2, fresh_heap_writes(heap_len));
            match e1 {
                Some(t) => Err(GuestFault::Arm(t)),
                None => match e2 {
                    Some(t) => Err(GuestFault::Arm(t)),
                    None => match e3 {
                        Some(t) => Err(GuestFault::Arm(t)),
                        None => Ok((m3, l)),
                    },
                },
            }
        },
    }
}

/// The guest address space for a `screen_width` x `screen_height` screen and
/// a heap of `heap_len` bytes, with its layout: the layout (refused as
/// `guest_layout` refuses it), the fixed mappings, the platform table, and
/// an empty heap with its bounds in the data slots. The first step that
/// fails fails the call with its message.
pub fn new_guest_address_space(screen_width: u16, screen_height: u16, heap_len: u32) -> (r: Result<
    (GuestMemory, GuestLayout),
    Error,
>)
    ensures
        match address_space_spec(screen_width, screen_height, heap_len) {
            Err(f) => fault_matches(r, f),
            Ok((m, l)) => r matches Ok((mem, layout)) && mem.wf() && mem@ == m && layout == l,
        },
{
    let l = match guest_layout(screen_width, screen_height, heap_len) {
        Ok(l) => l,
        Err(e) => return Err(e),
    };
    let mut memory = GuestMemory::new();
    assert(memory@.regions =~= Seq::<RegionView>::empty());
    assert(memory@ == MemView { regions: Seq::<RegionView>::empty() });
    match map_guest_address_space(&mut memory, &l) {
        Ok(()) => {},
        Err(e) => return Err(e),
    }
    match install_platform_table(&mut memory) {
        Ok(()) => {},
        Err(e) => return Err(e),
    }
    match install_guest_heap(&mut memory, heap_len) {
        Ok(()) => {},
        Err(e) => return Err(e),
    }
    Ok((memory, l))
}

/// The mapping a plan entry makes.
pub open spec fn region_of(e: (u32, Seq<u8>, Permissions, Seq<char>)) -> RegionView {
    RegionView { base: e.0 as int, data: e.1, perms: e.2, name: e.3 }
}

/// Makes the first `k` mappings of `plan` into an empty address space.
pub open spec fn regions_of(plan: Seq<(u32, Seq<u8>, Permissions, Seq<char>)>, k: int) -> Seq<RegionView> {
    Seq::new(k as nat, |i: int| region_of(plan[i]))
}

proof fn lemma_map_all_from(plan: Seq<(u32, Seq<u8>, Permissions, Seq<char>)>, k: int)
    requires
        0 <= k <= plan.len(),
        forall|j: int| 0 <= j < plan.len() ==> (#[trigger] plan[j]).1.len() > 0 && plan[j].0 + plan[j].1.len() <= 0x1_0000_0000,
        forall|i: int, j: int|
            0 <= i < j < plan.len() ==> (#[trigger] plan[i]).0 + plan[i].1.len() <= (#[trigger] plan[j]).0
                || plan[j].0 + plan[j].1.len() <= plan[i].0,
    ensures
        map_all(MemView { regions: regions_of(plan, k) }, plan.subrange(k, plan.len() as int))
            == (MemView { regions: regions_of(plan, plan.len() as int) }, None::<Seq<char>>),
    decreases plan.len() - k,
{
    let rest = plan.subrange(k, plan.len() as int);
    if k == plan.len() {
        assert(rest.len() == 0);
    } else {
        let m = MemView { regions: regions_of(plan, k) };
        assert(rest[0] == plan[k]);
        assert(m.can_map(plan[k].0, plan[k].1.len())) by {
            assert forall|i: int| 0 <= i < m.regions.len() implies #[trigger] m.regions[i].end() <= plan[k].0
                || plan[k].0 + plan[k].1.len() <= m.regions[i].base by {
                assert(m.regions[i] == region_of(plan[i]));
            }
        }
        assert(m.regions.push(region_of(plan[k])) =~= regions_of(plan, k + 1));
        assert(rest.drop_first() =~= plan.subrange(k + 1, plan.len() as int));
        lemma_map_all_from(plan, k + 1);
    }
}

/// Mappings that are each non-empty, inside the address space, and pairwise
/// apart are all made, in order, into an empty address space.
pub proof fn lemma_map_all_apart(plan: Seq<(u32, Seq<u8>, Permissions, Seq<char>)>)
    requires
        forall|j: int| 0 <= j < plan.len() ==> (#[trigger] plan[j]).1.len() > 0 && plan[j].0 + plan[j].1.len() <= 0x1_0000_0000,
        forall|i: int, j: int|
            0 <= i < j < plan.len() ==> (#[trigger] plan[i]).0 + plan[i].1.len() <= (#[trigger] plan[j]).0
                || plan[j].0 + plan[j].1.len() <= plan[i].0,
    ensures
        map_all(MemView { regions: Seq::empty() }, plan) == (
            MemView { regions: regions_of(plan, plan.len() as int) },
            None::<Seq<char>>,
        ),
{
    lemma_map_all_from(plan, 0);
    assert(regions_of(plan, 0) =~= Seq::<RegionView>::empty());
    assert(plan.subrange(0, plan.len() as int) =~= plan);
}

/// The fixed mappings of a layout whose screen lies clear of guest RAM and
/// below the EXT stack are each non-empty and pairwise apart.
proof fn lemma_plan_apart(l: GuestLayout)
    requires
        (l.screen_base == SCREEN_BASE && l.guest_ram_len == MIN_GUEST_RAM_LEN) || (l.screen_base
            == EXPANDED_SCREEN_BASE && MIN_GUEST_RAM_LEN < l.guest_ram_len <= MAX_GUEST_HEAP_LEN),
        0 < l.screen_memory_len,
        l.screen_base + l.screen_memory_len <= STACK_BASE,
    ensures
        ({
            let plan = address_space_plan(l);
            &&& forall|j: int| 0 <= j < plan.len() ==> (#[trigger] plan[j]).1.len() > 0 && plan[j].0 + plan[j].1.len() <= 0x1_0000_0000
            &&& forall|i: int, j: int|
                0 <= i < j < plan.len() ==> (#[trigger] plan[i]).0 + plan[i].1.len() <= (#[trigger] plan[j]).0
                    || plan[j].0 + plan[j].1.len() <= plan[i].0
        }),
{
    let plan = address_space_plan(l);
    assert(plan.len() == 13);
    assert forall|j: int| 0 <= j < plan.len() implies (#[trigger] plan[j]).1.len() > 0 && plan[j].0 + plan[j].1.len() <= 0x1_0000_0000 by {
        if j == 0 {} else if j == 1 {} else if j == 2 {} else if j == 3 {} else if j == 4 {} else if j == 5 {}
        else if j == 6 {} else if j == 7 {} else if j == 8 {} else if j == 9 {} else if j == 10 {}
        else if j == 11 {} else {}
    }
    assert forall|i: int, j: int| 0 <= i < j < plan.len() implies (#[trigger] plan[i]).0 + plan[i].1.len() <= (#[trigger] plan[j]).0
        || plan[j].0 + plan[j].1.len() <= plan[i].0 by {
        if i == 0 && j == 1 {
        } else if i == 0 && j == 2 {
        } else if i == 0 && j == 3 {
        } else if i == 0 && j == 4 {
        } else if i == 0 && j == 5 {
        } else if i == 0 && j == 6 {
        } else if i == 0 && j == 7 {
        } else if i == 0 && j == 8 {
        } else if i == 0 && j == 9 {
        } else if i == 0 && j == 10 {
        } else if i == 0 && j == 11 {
        } else if i == 0 && j == 12 {
        } else if i == 1 && j == 2 {
        } else if i == 1 && j == 3 {
        } else if i == 1 && j == 4 {
        } else if i == 1 && j == 5 {
        } else if i == 1 && j == 6 {
        } else if i == 1 && j == 7 {
        } else if i == 1 && j == 8 {
        } else if i == 1 && j == 9 {
        } else if i == 1 && j == 10 {
        } else if i == 1 && j == 11 {
        } else if i == 1 && j == 12 {
        } else if i == 2 && j == 3 {
        } else if i == 2 && j == 4 {
        } else if i == 2 && j == 5 {
        } else if i == 2 && j == 6 {
        } else if i == 2 && j == 7 {
        } else if i == 2 && j == 8 {
        } else if i == 2 && j == 9 {
        } else if i == 2 && j == 10 {
        } else if i == 2 && j == 11 {
        } else if i == 2 && j == 12 {
        } else if i == 3 && j == 4 {
        } else if i == 3 && j == 5 {
        } else if i == 3 && j == 6 {
        } else if i == 3 && j == 7 {
        } else if i == 3 && j == 8 {
        } else if i == 3 && j == 9 {
        } else if i == 3 && j == 10 {
        } else if i == 3 && j == 11 {
        } else if i == 3 && j == 12 {
        } else if i == 4 && j == 5 {
        } else if i == 4 && j == 6 {
        } else if i == 4 && j == 7 {
        } else if i == 4 && j == 8 {
        } else if i == 4 && j == 9 {
        } else if i == 4 && j == 10 {
        } else if i == 4 && j == 11 {
        } else if i == 4 && j == 12 {
        } else if i == 5 && j == 6 {
        } else if i == 5 && j == 7 {
        } else if i == 5 && j == 8 {
        } else if i == 5 && j == 9 {
        } else if i == 5 && j == 10 {
        } else if i == 5 && j == 11 {
        } else if i == 5 && j == 12 {
        } else if i == 6 && j == 7 {
        } else if i == 6 && j == 8 {
        } else if i == 6 && j == 9 {
        } else if i == 6 && j == 10 {
        } else if i == 6 && j == 11 {
        } else if i == 6 && j == 12 {
        } else if i == 7 && j == 8 {
        } else if i == 7 && j == 9 {
        } else if i == 7 && j == 10 {
        } else if i == 7 && j == 11 {
        } else if i == 7 && j == 12 {
        } else if i == 8 && j == 9 {
        } else if i == 8 && j == 10 {
        } else if i == 8 && j == 11 {
        } else if i == 8 && j == 12 {
        } else if i == 9 && j == 10 {
        } else if i == 9 && j == 11 {
        } else if i == 9 && j == 12 {
        } else if i == 10 && j == 11 {
        } else if i == 10 && j == 12 {
        } else if i == 11 && j == 12 {
        } else {
        }
    }
}

proof fn lemma_regions_wf(plan: Seq<(u32, Seq<u8>, Permissions, Seq<char>)>)
    requires
        forall|j: int| 0 <= j < plan.len() ==> (#[trigger] plan[j]).1.len() > 0 && plan[j].0 + plan[j].1.len() <= 0x1_0000_0000,
        forall|i: int, j: int|
            0 <= i < j < plan.len() ==> (#[trigger] plan[i]).0 + plan[i].1.len() <= (#[trigger] plan[j]).0
                || plan[j].0 + plan[j].1.len() <= plan[i].0,
    ensures
        (MemView { regions: regions_of(plan, plan.len() as int) }).wf(),
{
    let m = MemView { regions: regions_of(plan, plan.len() as int) };
    assert forall|i: int| 0 <= i < m.regions.len() implies {
        &&& 0 <= #[trigger] m.regions[i].base
        &&& m.regions[i].data.len() > 0
        &&& m.regions[i].end() <= 0x1_0000_0000
    } by {
        assert(m.regions[i] == region_of(plan[i]));
    }
    assert forall|i: int, j: int| 0 <= i < m.regions.len() && 0 <= j < m.regions.len() && i != j implies {
        ||| #[trigger] m.regions[i].end() <= m.regions[j].base
        ||| #[trigger] m.regions[j].end() <= m.regions[i].base
    } by {
        assert(m.regions[i] == region_of(plan[i]));
        assert(m.regions[j] == region_of(plan[j]));
        if i < j {
            assert(plan[i].0 + plan[i].1.len() <= plan[j].0 || plan[j].0 + plan[j].1.len() <= plan[i].0);
        } else {
            assert(plan[j].0 + plan[j].1.len() <= plan[i].0 || plan[i].0 + plan[i].1.len() <= plan[j].0);
        }
    }
}

/// A range inside one mapping whose rights allow `kind` is accessible.
proof fn lemma_accessible_in(m: MemView, k: int, x: int, n: int, kind: Access)
    requires
        m.wf(),
        0 <= k < m.regions.len(),
        m.regions[k].base <= x,
        0 <= n,
        x + n <= m.regions[k].end(),
        allows(m.regions[k].perms, kind),
    ensures
        m.accessible(x, n, kind),
{
    assert forall|t: int| 0 <= t < n implies #[trigger] m.mapped(x + t) && allows(m.perms_at(x + t), kind) by {
        lemma_find_some(m, x + t, 0, k);
        lemma_find_unique(m, x + t, 0);
    }
}

/// A runtime's address space for a heap of 1 byte to 16 MiB and a screen of
/// at most 1 MiB is made: the layout, every mapping, the platform table and
/// the empty heap all succeed, and the platform data page is readable and
/// writable in the result, and the platform table and bitmap array pages
/// writable.
pub proof fn lemma_fresh_address_space(screen_width: u16, screen_height: u16, heap_len: u32)
    requires
        1 <= heap_len <= MAX_GUEST_HEAP_LEN,
        screen_width * screen_height * 2 <= SCREEN_STAGING_CAPACITY,
    ensures
        address_space_spec(screen_width, screen_height, heap_len) matches Ok((m, l)) && {
            &&& m.wf()
            &&& m.accessible(PLATFORM_DATA as int, 0x1000, Access::Write)
            &&& m.accessible(PLATFORM_DATA as int, 0x1000, Access::Read)
            &&& m.accessible(PLATFORM_TABLE as int, 0x1000, Access::Write)
            &&& m.accessible(0x0100_2000, 0x1000, Access::Write)
        },
{
    let l = layout_spec(screen_width, screen_height, heap_len)->Ok_0;
    assert(l.screen_memory_len == SCREEN_STAGING_CAPACITY);
    lemma_plan_apart(l);
    let plan = address_space_plan(l);
    lemma_map_all_apart(plan);
    lemma_regions_wf(plan);
    let m1 = MemView { regions: regions_of(plan, plan.len() as int) };
    assert(m1.regions[0] == region_of(plan[0]));
    assert(m1.regions[1] == region_of(plan[1]));
    assert(m1.regions[9] == region_of(plan[9]));
    lemma_accessible_in(m1, 0, PLATFORM_TABLE as int, 0x1000, Access::Write);
    lemma_accessible_in(m1, 1, PLATFORM_DATA as int, 0x1000, Access::Write);
    lemma_accessible_in(m1, 1, PLATFORM_DATA as int, 0x1000, Access::Read);
    lemma_accessible_in(m1, 9, HEAP_BASE as int, 8, Access::Write);
    assert(m1.regions[2] == region_of(plan[2]));
    lemma_accessible_in(m1, 2, 0x0100_2000, 0x1000, Access::Write);
    lemma_setup_writes_succeed(m1, heap_len);
}

} // verus!
