//! The guest `sprintf` service: a format string and arguments in `r1`..`r3`
//! and on the stack, the formatted bytes written to `r0`.
use vstd::prelude::*;
use crate::cpu::ArmCpu;
use crate::cpu_model::CpuView;
use crate::error::Error;
use crate::guest_strings::{c_string_from, fault_matches, read_c_string, GuestFault};
use crate::libc_services::{
    failed_with, service_matches, terminated_outcome, write_terminated, ServiceOutcome, C_STRING_LIMIT,
};
use crate::memory::{matches_spec, GuestAddr, GuestMemory, MemView};
use crate::text::{debug_byte_char, debug_char_quoted};

verus! {

/// The longest format string `sprintf` reads.
pub const FORMAT_LIMIT: usize = 65536;

/// The flag, width, precision and length bytes that may follow a `%`; they
/// are skipped.
pub open spec fn is_format_flag(b: u8) -> bool {
    b == 45 || b == 43 || b == 32 || b == 35 || b == 46 || (48 <= b <= 57) || b == 104 || b == 108
}

/// The first index from `i` on that is not a flag byte (or the end).
pub open spec fn skip_flags(format: Seq<u8>, i: int) -> int
    decreases format.len() - i,
{
    if i < format.len() && is_format_flag(format[i]) {
        skip_flags(format, i + 1)
    } else {
        i
    }
}

/// The ASCII digit for `n` (`0 <= n < 16`), in upper or lower case.
pub open spec fn digit_byte(n: nat, upper: bool) -> u8 {
    if n < 10 {
        (48 + n) as u8
    } else if upper {
        (55 + n) as u8
    } else {
        (87 + n) as u8
    }
}

/// `v` in decimal, without leading zeros.
pub open spec fn decimal_bytes(v: nat) -> Seq<u8>
    decreases v,
{
    if v < 10 {
        seq![digit_byte(v, false)]
    } else {
        decimal_bytes(v / 10).push(digit_byte(v % 10, false))
    }
}

/// `v` in hexadecimal, without leading zeros.
pub open spec fn hex_bytes(v: nat, upper: bool) -> Seq<u8>
    decreases v,
{
    if v < 16 {
        seq![digit_byte(v, upper)]
    } else {
        hex_bytes(v / 16, upper).push(digit_byte(v % 16, upper))
    }
}

/// The `width` low lowercase hexadecimal digits of `v`.
pub open spec fn hex_width_bytes(v: nat, width: nat) -> Seq<u8>
    decreases width,
{
    if width == 0 {
        Seq::empty()
    } else {
        hex_width_bytes(v / 16, (width - 1) as nat).push(digit_byte(v % 16, false))
    }
}

/// `v` as a signed decimal number.
pub open spec fn signed_bytes(v: i32) -> Seq<u8> {
    if v < 0 {
        seq![45u8] + decimal_bytes((-v) as nat)
    } else {
        decimal_bytes(v as nat)
    }
}

/// Argument `n`: `r2`, `r3`, then the words on the stack at `sp`.  The
/// stack address is computed modulo 2^32.
pub open spec fn format_argument(m: MemView, n: nat, r2: u32, r3: u32, sp: u32) -> Result<
    u32,
    Seq<char>,
> {
    if n == 0 {
        Ok(r2)
    } else if n == 1 {
        Ok(r3)
    } else {
        m.read_u32(sp.wrapping_add(((n - 2) * 4) as u32))
    }
}

pub open spec fn unsupported_specifier_text(b: u8) -> Seq<char> {
    "unsupported sprintf specifier "@ + debug_char_quoted(b)
}

/// What conversion `spec` writes for argument `a`.
pub open spec fn conversion(m: MemView, spec: u8, a: u32) -> Result<Seq<u8>, GuestFault> {
    if spec == 115 {
        c_string_from(m, a, 0, C_STRING_LIMIT as int)
    } else if spec == 99 {
        Ok(seq![a as u8])
    } else if spec == 100 || spec == 105 {
        Ok(signed_bytes(a as i32))
    } else if spec == 117 {
        Ok(decimal_bytes(a as nat))
    } else if spec == 120 {
        Ok(hex_bytes(a as nat, false))
    } else if spec == 88 {
        Ok(hex_bytes(a as nat, true))
    } else if spec == 112 {
        Ok(seq![48u8, 120u8] + hex_width_bytes(a as nat, 8))
    } else {
        Err(GuestFault::Abi(unsupported_specifier_text(spec)))
    }
}

/// `prefix` followed by what `rest` produced, or the fault that stopped it.
pub open spec fn after(prefix: Seq<u8>, rest: Result<Seq<u8>, GuestFault>) -> Result<Seq<u8>, GuestFault> {
    match rest {
        Ok(s) => Ok(prefix + s),
        Err(f) => Err(f),
    }
}

/// The bytes that `format[i..]` produces when its next argument is number `n`.
pub open spec fn format_from(
    m: MemView,
    format: Seq<u8>,
    i: int,
    n: nat,
    r2: u32,
    r3: u32,
    sp: u32,
) -> Result<Seq<u8>, GuestFault>
    decreases format.len() - i,
{
    if i < 0 || i >= format.len() {
        Ok(Seq::empty())
    } else if format[i] != 37 {
        after(seq![format[i]], format_from(m, format, i + 1, n, r2, r3, sp))
    } else if i + 1 < format.len() && format[i + 1] == 37 {
        after(seq![37u8], format_from(m, format, i + 2, n, r2, r3, sp))
    } else {
        let j = skip_flags(format, i + 1);
        if j >= format.len() || j <= i {
            Err(GuestFault::Abi("sprintf format ends after '%'"@))
        } else {
            match format_argument(m, n, r2, r3, sp) {
                Err(t) => Err(GuestFault::Arm(t)),
                Ok(a) => match conversion(m, format[j], a) {
                    Err(f) => Err(f),
                    Ok(piece) => after(piece, format_from(m, format, j + 1, n + 1, r2, r3, sp)),
                },
            }
        }
    }
}

/// What `sprintf` does with the core `c` and memory `m`: the format string
/// at `r1` is expanded and written, terminated, at `r0`; `r0` receives the
/// length written.
pub open spec fn sprintf_spec(c: CpuView, m: MemView) -> ServiceOutcome {
    match c_string_from(m, c.regs[1], 0, FORMAT_LIMIT as int) {
        Err(f) => failed_with(m, f),
        Ok(format) => match format_from(m, format, 0, 0, c.regs[2], c.regs[3], c.regs[13]) {
            Err(f) => failed_with(m, f),
            Ok(out) => terminated_outcome(m, c.regs[0], out, out.len() as u32),
        },
    }
}

proof fn lemma_skip_flags_bounds(format: Seq<u8>, i: int)
    ensures
        skip_flags(format, i) >= i,
        i <= format.len() ==> skip_flags(format, i) <= format.len(),
    decreases format.len() - i,
{
    if i < format.len() && is_format_flag(format[i]) {
        lemma_skip_flags_bounds(format, i + 1);
    }
}

fn is_flag(b: u8) -> (r: bool)
    ensures
        r == is_format_flag(b),
{
    b == 45u8 || b == 43u8 || b == 32u8 || b == 35u8 || b == 46u8 || (48u8 <= b && b <= 57u8)
        || b == 104u8 || b == 108u8
}

fn digit(n: u32, upper: bool) -> (b: u8)
    requires
        n < 16,
    ensures
        b == digit_byte(n as nat, upper),
{
    if n < 10 {
        48u8 + n as u8
    } else if upper {
        65u8 + (n - 10) as u8
    } else {
        97u8 + (n - 10) as u8
    }
}

fn push_decimal(v: u32, out: &mut Vec<u8>)
    ensures
        final(out)@ == old(out)@ + decimal_bytes(v as nat),
    decreases v,
{
    if v >= 10 {
        push_decimal(v / 10, out);
    }
    out.push(digit(v % 10, false));
    proof {
        if v >= 10 {
            assert(old(out)@ + decimal_bytes(v as nat) =~= old(out)@ + decimal_bytes((v / 10) as nat)
                + seq![digit_byte((v % 10) as nat, false)]);
        }
    }
    assert(final(out)@ =~= old(out)@ + decimal_bytes(v as nat));
}

fn push_hex(v: u32, upper: bool, out: &mut Vec<u8>)
    ensures
        final(out)@ == old(out)@ + hex_bytes(v as nat, upper),
    decreases v,
{
    if v >= 16 {
        push_hex(v / 16, upper, out);
    }
    out.push(digit(v % 16, upper));
    proof {
        if v >= 16 {
            assert(old(out)@ + hex_bytes(v as nat, upper) =~= old(out)@ + hex_bytes(
                (v / 16) as nat,
                upper,
            ) + seq![digit_byte((v % 16) as nat, upper)]);
        }
    }
    assert(final(out)@ =~= old(out)@ + hex_bytes(v as nat, upper));
}

fn push_hex_width(v: u32, width: u32, out: &mut Vec<u8>)
    ensures
        final(out)@ == old(out)@ + hex_width_bytes(v as nat, width as nat),
    decreases width,
{
    if width == 0 {
        assert(final(out)@ =~= old(out)@ + hex_width_bytes(v as nat, width as nat));
        return;
    }
    push_hex_width(v / 16, width - 1, out);
    out.push(digit(v % 16, false));
    assert(final(out)@ =~= old(out)@ + hex_width_bytes(v as nat, width as nat));
}

fn push_signed(v: i32, out: &mut Vec<u8>)
    ensures
        final(out)@ == old(out)@ + signed_bytes(v),
{
    if v < 0 {
        out.push(45u8);
        let magnitude = (0i64 - v as i64) as u32;
        push_decimal(magnitude, out);
        assert(final(out)@ =~= old(out)@ + signed_bytes(v));
    } else {
        push_decimal(v as u32, out);
    }
}

fn argument(memory: &GuestMemory, n: u32, r2: u32, r3: u32, sp: u32) -> (r: Result<u32, Error>)
    requires
        memory.wf(),
        n <= FORMAT_LIMIT,
    ensures
        matches_spec(r, format_argument(memory@, n as nat, r2, r3, sp)),
{
    if n == 0 {
        Ok(r2)
    } else if n == 1 {
        Ok(r3)
    } else {
        memory.read_u32(GuestAddr(sp.wrapping_add((n - 2) * 4)))
    }
}

fn convert(memory: &GuestMemory, spec: u8, a: u32, out: &mut Vec<u8>) -> (r: Result<(), Error>)
    requires
        memory.wf(),
    ensures
        match conversion(memory@, spec, a) {
            Ok(piece) => r is Ok && final(out)@ == old(out)@ + piece,
            Err(f) => fault_matches(r, f),
        },
{
    if spec == 115u8 {
        let mut text = match read_c_string(memory, GuestAddr(a), C_STRING_LIMIT) {
            Ok(t) => t,
            Err(e) => return Err(e),
        };
        out.append(&mut text);
    } else if spec == 99u8 {
        out.push(a as u8);
        assert(final(out)@ =~= old(out)@ + seq![a as u8]);
    } else if spec == 100u8 || spec == 105u8 {
        push_signed(a as i32, out);
    } else if spec == 117u8 {
        push_decimal(a, out);
    } else if spec == 120u8 {
        push_hex(a, false, out);
    } else if spec == 88u8 {
        push_hex(a, true, out);
    } else if spec == 112u8 {
        out.push(48u8);
        out.push(120u8);
        push_hex_width(a, 8, out);
        assert(final(out)@ =~= old(out)@ + (seq![48u8, 120u8] + hex_width_bytes(a as nat, 8)));
    } else {
        proof {
            reveal_strlit("unsupported sprintf specifier ");
        }
        let shown = debug_byte_char(spec);
        let message = String::from_str("unsupported sprintf specifier ").concat(shown.as_str());
        return Err(Error::Abi(message));
    }
    Ok(())
}

/// Runs the guest `sprintf`: `r1` holds the format string, `r2`, `r3` and
/// the stack words at `sp` the arguments; the output and a terminator are
/// written at `r0`, and `r0` receives the output's length.  `%%` writes a
/// percent sign; flag, width and length bytes after `%` are skipped;
/// `s c d i u x X p` are the conversions.
pub fn sprintf(memory: &mut GuestMemory, cpu: &mut ArmCpu) -> (r: Result<(), Error>)
    requires
        old(memory).wf(),
    ensures
        final(memory).wf(),
        service_matches(r, old(cpu)@, final(cpu)@, final(memory)@, sprintf_spec(old(cpu)@, old(memory)@)),
{
    proof {
        cpu.lemma_wf();
    }
    let destination = cpu.register(0);
    let r2 = cpu.register(2);
    let r3 = cpu.register(3);
    let sp = cpu.register(13);
    let format = match read_c_string(memory, GuestAddr(cpu.register(1)), FORMAT_LIMIT) {
        Ok(f) => f,
        Err(e) => return Err(e),
    };
    let ghost m = memory@;
    let ghost fmt = format@;
    let ghost c0 = cpu@;
    proof {
        lemma_c_string_len(m, cpu@.regs[1], 0, FORMAT_LIMIT as int);
    }
    let mut output: Vec<u8> = Vec::new();
    let mut index: usize = 0;
    let mut next: u32 = 0;
    while index < format.len()
        invariant
            memory.wf(),
            memory@ == m,
            cpu@ == c0,
            c0 == old(cpu)@,
            m == old(memory)@,
            c_string_from(m, c0.regs[1], 0, FORMAT_LIMIT as int) == Ok::<Seq<u8>, GuestFault>(fmt),
            destination == c0.regs[0],
            r2 == c0.regs[2],
            r3 == c0.regs[3],
            sp == c0.regs[13],
            format@ == fmt,
            fmt.len() <= FORMAT_LIMIT,
            index <= fmt.len(),
            next <= index,
            format_from(m, fmt, 0, 0, r2, r3, sp) == after(
                output@,
                format_from(m, fmt, index as int, next as nat, r2, r3, sp),
            ),
        decreases fmt.len() - index,
    {
        let ghost before = output@;
        let ghost at = index as int;
        if format[index] != 37u8 {
            output.push(format[index]);
            index += 1;
            proof {
                assert(output@ =~= before + seq![fmt[at]]);
                assert(before + (seq![fmt[at]] + Seq::<u8>::empty()) =~= output@);
                lemma_after_assoc(before, seq![fmt[at]], format_from(m, fmt, at + 1, next as nat, r2, r3, sp));
            }
        } else if index + 1 < format.len() && format[index + 1] == 37u8 {
            output.push(37u8);
            index += 2;
            proof {
                assert(output@ =~= before + seq![37u8]);
                lemma_after_assoc(before, seq![37u8], format_from(m, fmt, at + 2, next as nat, r2, r3, sp));
            }
        } else {
            index += 1;
            while index < format.len() && is_flag(format[index])
                invariant
                    format@ == fmt,
                    at + 1 <= index <= fmt.len(),
                    skip_flags(fmt, at + 1) == skip_flags(fmt, index as int),
                decreases fmt.len() - index,
            {
                index += 1;
            }
            proof {
                lemma_skip_flags_bounds(fmt, at + 1);
            }
            if index >= format.len() {
                proof {
                    reveal_strlit("sprintf format ends after '%'");
                }
                return Err(Error::Abi(String::from_str("sprintf format ends after '%'")));
            }
            let spec = format[index];
            index += 1;
            let a = match argument(memory, next, r2, r3, sp) {
                Ok(a) => a,
                Err(e) => return Err(e),
            };
            next += 1;
            let mut piece: Vec<u8> = Vec::new();
            match convert(memory, spec, a, &mut piece) {
                Ok(()) => {},
                Err(e) => return Err(e),
            }
            let ghost p = piece@;
            output.append(&mut piece);
            proof {
                assert(p =~= Seq::<u8>::empty() + p);
                lemma_after_assoc(before, p, format_from(m, fmt, index as int, next as nat, r2, r3, sp));
            }
        }
    }
    proof {
        assert(output@ + Seq::<u8>::empty() =~= output@);
    }
    match write_terminated(memory, GuestAddr(destination), output.as_slice()) {
        Ok(()) => {},
        Err(e) => return Err(e),
    }
    cpu.set_register(0, output.len() as u32);
    Ok(())
}

/// Appending in two steps is appending once.
proof fn lemma_after_assoc(a: Seq<u8>, b: Seq<u8>, rest: Result<Seq<u8>, GuestFault>)
    ensures
        after(a, after(b, rest)) == after(a + b, rest),
{
    match rest {
        Ok(s) => {
            assert(a + (b + s) =~= (a + b) + s);
        },
        Err(f) => {},
    }
}

/// A string read with `limit` is shorter than `limit`.
proof fn lemma_c_string_len(m: MemView, a: u32, offset: int, limit: int)
    requires
        0 <= offset,
    ensures
        c_string_from(m, a, offset, limit) matches Ok(s) ==> offset + s.len() < limit,
    decreases limit - offset,
{
    if offset < limit {
        lemma_c_string_len(m, a, offset + 1, limit);
    }
}


/// The value of the digit byte `b`: `0`-`9`, then `a`-`f` and `A`-`F` as 10
/// to 15 (16 for any other byte).
pub open spec fn digit_value(b: u8) -> int {
    if 48 <= b <= 57 {
        b - 48
    } else if 97 <= b <= 102 {
        b - 87
    } else if 65 <= b <= 70 {
        b - 55
    } else {
        16
    }
}

/// `s` read as a numeral in `base`, most significant digit first.
pub open spec fn numeral_value(s: Seq<u8>, base: int) -> int
    decreases s.len(),
{
    if s.len() == 0 {
        0
    } else {
        numeral_value(s.drop_last(), base) * base + digit_value(s.last())
    }
}

/// `s` is a numeral of decimal digits (`upper` aside) or of hexadecimal
/// digits in one case, without a leading zero unless it is `0` itself.
pub open spec fn numeral_shape(s: Seq<u8>, hex: bool, upper: bool) -> bool {
    &&& s.len() > 0
    &&& (s[0] == 48 ==> s.len() == 1)
    &&& forall|i: int|
        0 <= i < s.len() ==> {
            ||| 48 <= #[trigger] s[i] <= 57
            ||| (hex && !upper && 97 <= s[i] <= 102)
            ||| (hex && upper && 65 <= s[i] <= 70)
        }
}

proof fn lemma_decimal_numeral(v: nat)
    ensures
        numeral_shape(decimal_bytes(v), false, false),
        numeral_value(decimal_bytes(v), 10) == v,
        (decimal_bytes(v)[0] == 48) == (v == 0),
    decreases v,
{
    let s = decimal_bytes(v);
    if v < 10 {
        assert(s.drop_last() =~= Seq::<u8>::empty());
        assert(numeral_value(s, 10) == numeral_value(s.drop_last(), 10) * 10 + digit_value(s.last()));
    }
    if v >= 10 {
        lemma_decimal_numeral(v / 10);
        let front = decimal_bytes(v / 10);
        assert(s.drop_last() =~= front);
        assert(s[0] == front[0]);
        assert(digit_value(s.last()) == v % 10);
        assert(numeral_value(s, 10) == numeral_value(front, 10) * 10 + v % 10);
        assert forall|i: int| 0 <= i < s.len() implies 48 <= #[trigger] s[i] <= 57 by {
            if i < front.len() {
                assert(s[i] == front[i]);
            }
        }
    }
}

proof fn lemma_hex_numeral(v: nat, upper: bool)
    ensures
        numeral_shape(hex_bytes(v, upper), true, upper),
        numeral_value(hex_bytes(v, upper), 16) == v,
        (hex_bytes(v, upper)[0] == 48) == (v == 0),
    decreases v,
{
    let s = hex_bytes(v, upper);
    if v < 16 {
        assert(s.drop_last() =~= Seq::<u8>::empty());
        assert(numeral_value(s, 16) == numeral_value(s.drop_last(), 16) * 16 + digit_value(s.last()));
    }
    if v >= 16 {
        lemma_hex_numeral(v / 16, upper);
        let front = hex_bytes(v / 16, upper);
        assert(s.drop_last() =~= front);
        assert(s[0] == front[0]);
        assert(digit_value(s.last()) == v % 16);
        assert(numeral_value(s, 16) == numeral_value(front, 16) * 16 + v % 16);
        assert forall|i: int| 0 <= i < s.len() implies {
            ||| 48 <= #[trigger] s[i] <= 57
            ||| (!upper && 97 <= s[i] <= 102)
            ||| (upper && 65 <= s[i] <= 70)
        } by {
            if i < front.len() {
                assert(s[i] == front[i]);
            }
        }
    }
}

/// Sixteen to the power `w`.
pub open spec fn pow16(w: nat) -> nat
    decreases w,
{
    if w == 0 {
        1
    } else {
        16 * pow16((w - 1) as nat)
    }
}

proof fn lemma_hex_width_numeral(v: nat, w: nat)
    requires
        v < pow16(w),
    ensures
        hex_width_bytes(v, w).len() == w,
        numeral_value(hex_width_bytes(v, w), 16) == v,
        forall|i: int|
            0 <= i < w ==> (48 <= #[trigger] hex_width_bytes(v, w)[i] <= 57 || 97 <= hex_width_bytes(v, w)[i]
                <= 102),
    decreases w,
{
    let s = hex_width_bytes(v, w);
    if w > 0 {
        let p = pow16((w - 1) as nat);
        assert(v / 16 < p) by (nonlinear_arith)
            requires
                v < 16 * p,
        ;
        lemma_hex_width_numeral(v / 16, (w - 1) as nat);
        let front = hex_width_bytes(v / 16, (w - 1) as nat);
        assert(s.drop_last() =~= front);
        assert(digit_value(s.last()) == v % 16);
        assert forall|i: int| 0 <= i < w implies (48 <= #[trigger] s[i] <= 57 || 97 <= s[i] <= 102) by {
            if i < w - 1 {
                assert(s[i] == front[i]);
            }
        }
    } else {
        assert(v == 0);
    }
}

/// The numeric conversions of the guest `sprintf` write their argument's
/// value: `%d` and `%i` the argument read as a signed 32-bit number in
/// decimal (a `-` before the digits of its magnitude when it is negative),
/// `%u` the unsigned number in decimal, `%x` and `%X` the unsigned number in
/// lowercase and uppercase hexadecimal; each without leading zeros, so
/// that reading the digits back gives the number; `%p` writes `0x` and
/// exactly eight lowercase hexadecimal digits of the number.
pub proof fn lemma_numeric_conversions(m: MemView, spec: u8, a: u32)
    requires
        spec == 100 || spec == 105 || spec == 117 || spec == 120 || spec == 88 || spec == 112,
    ensures
        conversion(m, spec, a) is Ok,
        ({
            let s = conversion(m, spec, a)->Ok_0;
            let v = a as i32;
            &&& (spec == 100 || spec == 105) && v >= 0 ==> numeral_shape(s, false, false) && numeral_value(s, 10) == v
            &&& (spec == 100 || spec == 105) && v < 0 ==> s[0] == 45 && numeral_shape(s.skip(1), false, false)
                && numeral_value(s.skip(1), 10) == -v
            &&& spec == 117 ==> numeral_shape(s, false, false) && numeral_value(s, 10) == a
            &&& spec == 120 ==> numeral_shape(s, true, false) && numeral_value(s, 16) == a
            &&& spec == 88 ==> numeral_shape(s, true, true) && numeral_value(s, 16) == a
            &&& spec == 112 ==> s.len() == 10 && s[0] == 48 && s[1] == 120 && numeral_value(s.skip(2), 16) == a
                && forall|i: int| 2 <= i < 10 ==> (48 <= #[trigger] s[i] <= 57 || 97 <= s[i] <= 102)
        }),
{
    let v = a as i32;
    if spec == 100 || spec == 105 {
        if v < 0 {
            lemma_decimal_numeral((-v) as nat);
            assert((seq![45u8] + decimal_bytes((-v) as nat)).skip(1) =~= decimal_bytes((-v) as nat));
        } else {
            lemma_decimal_numeral(v as nat);
        }
    } else if spec == 117 {
        lemma_decimal_numeral(a as nat);
    } else if spec == 120 {
        lemma_hex_numeral(a as nat, false);
    } else if spec == 88 {
        lemma_hex_numeral(a as nat, true);
    } else {
        assert(pow16(8) == 0x1_0000_0000) by {
            reveal_with_fuel(pow16, 9);
        }
        lemma_hex_width_numeral(a as nat, 8);
        let s = seq![48u8, 120u8] + hex_width_bytes(a as nat, 8);
        assert(s.skip(2) =~= hex_width_bytes(a as nat, 8));
        assert forall|i: int| 2 <= i < 10 implies (48 <= #[trigger] s[i] <= 57 || 97 <= s[i] <= 102) by {
            assert(s[i] == hex_width_bytes(a as nat, 8)[i - 2]);
        }
    }
}

} // verus!
