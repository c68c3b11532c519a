//! The guest address space the runtime sets up: where the heap, its RAM
//! window and the screen lie for a configured heap and screen size.
use crate::error::Error;
use crate::text::{dec_text, decimal};
use vstd::prelude::*;
use vstd::string::*;

verus! {

/// Where the guest heap starts.
pub const HEAP_BASE: u32 = 0x2000_0000;

/// The RAM window legacy helpers use, whatever the configured heap.
pub const MIN_GUEST_RAM_LEN: usize = 0x0080_0000;

/// The largest heap the runtime supports.
pub const MAX_GUEST_HEAP_LEN: usize = 0x0100_0000;

/// The guard between a large heap and the screen.
pub const GUEST_MEMORY_GUARD_LEN: u32 = 0x1000;

/// The screen, right after the fixed RAM window.
pub const SCREEN_BASE: u32 = 0x2080_0000;

/// The screen after the largest heap and a guard.
pub const EXPANDED_SCREEN_BASE: u32 = 0x2100_1000;

/// The least screen memory mapped, for staging.
pub const SCREEN_STAGING_CAPACITY: usize = 0x0010_0000;

/// Where the runtime puts the heap and the screen.
#[derive(Clone, Copy, Debug, PartialEq, Eq, Structural)]
pub struct GuestLayout {
    /// The heap's length.
    pub heap_len: usize,
    /// The heap's end address.
    pub heap_end: u32,
    /// The length of guest RAM mapped from the heap base.
    pub guest_ram_len: usize,
    /// Where the screen buffer lies.
    pub screen_base: u32,
    /// The screen buffer's length: two bytes a pixel.
    pub screen_len: usize,
    /// The screen memory mapped: the buffer, at least the staging capacity.
    pub screen_memory_len: usize,
}

pub open spec fn heap_too_large_text(heap_len: u32) -> Seq<char> {
    "guest heap length "@ + dec_text(heap_len as nat) + " exceeds supported maximum 16777216"@
}

/// The layout for a `screen_width` x `screen_height` screen and a heap of
/// `heap_len` bytes: a heap up to the fixed RAM window lives in that window
/// with the screen right after it; a larger heap gets RAM of its own length
/// and the screen moves past the largest heap and a guard.
pub open spec fn layout_spec(screen_width: u16, screen_height: u16, heap_len: u32) -> Result<
    GuestLayout,
    Seq<char>,
> {
    if heap_len == 0 {
        Err("guest heap length must be non-zero"@)
    } else if heap_len > MAX_GUEST_HEAP_LEN {
        Err(heap_too_large_text(heap_len))
    } else if screen_width * screen_height * 2 > usize::MAX {
        Err("guest screen buffer size overflow"@)
    } else {
        let screen_len = (screen_width * screen_height * 2) as usize;
        Ok(
            GuestLayout {
                heap_len: heap_len as usize,
                heap_end: (HEAP_BASE + heap_len) as u32,
                guest_ram_len: if heap_len <= MIN_GUEST_RAM_LEN {
                    MIN_GUEST_RAM_LEN
                } else {
                    heap_len as usize
                },
                screen_base: if heap_len <= MIN_GUEST_RAM_LEN {
                    SCREEN_BASE
                } else {
                    EXPANDED_SCREEN_BASE
                },
                screen_len,
                screen_memory_len: if screen_len < SCREEN_STAGING_CAPACITY {
                    SCREEN_STAGING_CAPACITY
                } else {
                    screen_len
                },
            },
        )
    }
}

/// The layout of the guest address space for a `screen_width` x
/// `screen_height` screen and a heap of `heap_len` bytes (see
/// `layout_spec`); a heap that is empty or too large is refused.
pub fn guest_layout(screen_width: u16, screen_height: u16, heap_len: u32) -> (r: Result<
    GuestLayout,
    Error,
>)
    ensures
        match layout_spec(screen_width, screen_height, heap_len) {
            Ok(l) => r == Ok::<GuestLayout, Error>(l),
            Err(t) => r matches Err(Error::ArmFault(m)) && m@ == t,
        },
{
    proof {
        reveal_strlit("guest heap length must be non-zero");
        reveal_strlit("guest heap length ");
        reveal_strlit(" exceeds supported maximum 16777216");
        reveal_strlit("guest screen buffer size overflow");
    }
    let len = heap_len as usize;
    if len == 0 {
        return Err(Error::ArmFault(String::from_str("guest heap length must be non-zero")));
    }
    if len > MAX_GUEST_HEAP_LEN {
        let m = String::from_str("guest heap length ").concat(decimal(heap_len as u64).as_str()).concat(
            " exceeds supported maximum 16777216",
        );
        return Err(Error::ArmFault(m));
    }
    let heap_end = HEAP_BASE + heap_len;
    let (guest_ram_len, screen_base) = if len <= MIN_GUEST_RAM_LEN {
        (MIN_GUEST_RAM_LEN, SCREEN_BASE)
    } else {
        (len, EXPANDED_SCREEN_BASE)
    };
    let pixels = match (screen_width as usize).checked_mul(screen_height as usize) {
        Some(p) => p,
        None => return Err(Error::ArmFault(String::from_str("guest screen buffer size overflow"))),
    };
    let screen_len = match pixels.checked_mul(2) {
        Some(n) => n,
        None => return Err(Error::ArmFault(String::from_str("guest screen buffer size overflow"))),
    };
    let screen_memory_len = if screen_len < SCREEN_STAGING_CAPACITY {
        SCREEN_STAGING_CAPACITY
    } else {
        screen_len
    };
    Ok(GuestLayout { heap_len: len, heap_end, guest_ram_len, screen_base, screen_len, screen_memory_len })
}

/// The screen never overlaps the heap's RAM window: it starts where that
/// window ends, or past the largest heap and its guard.
pub proof fn lemma_screen_clear_of_heap(screen_width: u16, screen_height: u16, heap_len: u32)
    requires
        layout_spec(screen_width, screen_height, heap_len) is Ok,
    ensures
        ({
            let l = layout_spec(screen_width, screen_height, heap_len)->Ok_0;
            &&& l.heap_len <= l.guest_ram_len
            &&& HEAP_BASE + l.guest_ram_len <= l.screen_base
            &&& l.heap_end == HEAP_BASE + l.heap_len
            &&& l.screen_memory_len >= l.screen_len
        }),
{
}

} // verus!
