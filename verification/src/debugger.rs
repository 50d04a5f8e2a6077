use vstd::prelude::*;
use vstd::string::StrSliceExecFns;

verus! {

/// Whether `c` is a hexadecimal digit, either case.
pub open spec fn is_hex_digit(c: char) -> bool {
    (48 <= c as u32 && c as u32 <= 57) || (97 <= c as u32 && c as u32 <= 102) || (65 <= c as u32
        && c as u32 <= 70)
}

/// The value of one hexadecimal digit.
pub open spec fn hex_digit_val(c: char) -> nat {
    if 48 <= c as u32 && c as u32 <= 57 {
        (c as u32 - 48) as nat
    } else if 97 <= c as u32 && c as u32 <= 102 {
        (c as u32 - 87) as nat
    } else {
        (c as u32 - 55) as nat
    }
}

/// The value of a run of hexadecimal digits, most significant first.
pub open spec fn hex_val(s: Seq<char>) -> nat
    decreases s.len(),
{
    if s.len() == 0 {
        0
    } else {
        hex_val(s.drop_last()) * 16 + hex_digit_val(s.last())
    }
}

/// Every character is a hexadecimal digit.
pub open spec fn all_hex(s: Seq<char>) -> bool {
    forall|i: int| 0 <= i < s.len() ==> is_hex_digit(#[trigger] s[i])
}

/// The digit run of an address literal: what remains after an optional
/// `0x`/`0X` prefix and, after that, an optional leading plus sign.
pub open spec fn digits_of(s: Seq<char>) -> Seq<char> {
    let t = if s.len() >= 2 && s[0] == '0' && (s[1] == 'x' || s[1] == 'X') {
        s.skip(2)
    } else {
        s
    };
    if t.len() >= 1 && t[0] == '+' {
        t.skip(1)
    } else {
        t
    }
}

/// A digit run's value only grows as more digits follow.
proof fn lemma_hex_val_prefix(s: Seq<char>, k: int)
    requires
        0 <= k <= s.len(),
    ensures
        hex_val(s.take(k)) <= hex_val(s),
    decreases s.len() - k,
{
    if k < s.len() {
        lemma_hex_val_prefix(s, k + 1);
        let t = s.take(k + 1);
        assert(t.drop_last() =~= s.take(k));
        assert(t.last() == s[k]);
        assert(hex_val(s.take(k)) * 16 >= hex_val(s.take(k)) * 1);
    } else {
        assert(s.take(k) =~= s);
    }
}

/// Whether `c` is a decimal digit.
pub open spec fn is_dec_digit(c: char) -> bool {
    48 <= c as u32 && c as u32 <= 57
}

/// The value of one decimal digit.
pub open spec fn dec_digit_val(c: char) -> nat {
    (c as u32 - 48) as nat
}

/// The value of a run of decimal digits, most significant first.
pub open spec fn dec_val(s: Seq<char>) -> nat
    decreases s.len(),
{
    if s.len() == 0 {
        0
    } else {
        dec_val(s.drop_last()) * 10 + dec_digit_val(s.last())
    }
}

/// Every character is a decimal digit.
pub open spec fn all_dec(s: Seq<char>) -> bool {
    forall|i: int| 0 <= i < s.len() ==> is_dec_digit(#[trigger] s[i])
}

/// A digit run's value only grows as more digits follow.
proof fn lemma_dec_val_prefix(s: Seq<char>, k: int)
    requires
        0 <= k <= s.len(),
    ensures
        dec_val(s.take(k)) <= dec_val(s),
    decreases s.len() - k,
{
    if k < s.len() {
        lemma_dec_val_prefix(s, k + 1);
        let t = s.take(k + 1);
        assert(t.drop_last() =~= s.take(k));
        assert(t.last() == s[k]);
        assert(dec_val(s.take(k)) * 10 >= dec_val(s.take(k)) * 1);
    } else {
        assert(s.take(k) =~= s);
    }
}

/// Read a source line number: one or more decimal digits whose value fits a
/// `usize`; anything else is no line number.
pub fn parse_line_number(s: &str) -> (r: Option<usize>)
    ensures
        (r is Some <==> s@.len() > 0 && all_dec(s@) && dec_val(s@) <= usize::MAX),
        (r matches Some(v) ==> v == dec_val(s@)),
{
    let n = s.unicode_len();
    if n == 0 {
        return None;
    }
    let mut val: u128 = 0;
    let mut i: usize = 0;
    while i < n
        invariant
            i <= n,
            n == s@.len(),
            val <= usize::MAX as u128,
            all_dec(s@.take(i as int)),
            val == dec_val(s@.take(i as int)),
        decreases n - i,
    {
        let c = s.get_char(i);
        let u = c as u32;
        if !(48 <= u && u <= 57) {
            proof {
                assert(!is_dec_digit(s@[i as int]));
            }
            return None;
        }
        let dv: u32 = u - 48;
        proof {
            let t = s@.take(i + 1);
            assert(t.drop_last() =~= s@.take(i as int));
            assert(t.last() == s@[i as int]);
            assert(dec_digit_val(s@[i as int]) == dv as nat);
        }
        val = val * 10 + dv as u128;
        if val > usize::MAX as u128 {
            proof {
                assert(val == dec_val(s@.take(i + 1)));
                lemma_dec_val_prefix(s@, i + 1);
            }
            return None;
        }
        i += 1;
    }
    proof {
        assert(s@.take(n as int) =~= s@);
    }
    Some(val as usize)
}

/// The literal starts with a hexadecimal prefix, either case.
pub open spec fn has_hex_prefix(s: Seq<char>) -> bool {
    s.len() >= 2 && s[0] == '0' && (s[1] == 'x' || s[1] == 'X')
}

/// The hexadecimal digit run of an address literal parses to a `usize`.
pub open spec fn valid_hex_literal(s: Seq<char>) -> bool {
    digits_of(s).len() > 0 && all_hex(digits_of(s)) && hex_val(digits_of(s)) <= usize::MAX
}

/// Where a breakpoint command's argument points.
pub enum BreakpointTarget {
    /// A raw address, written in hexadecimal with a `0x` prefix.
    Address { addr: usize },
    /// A source line number, written in decimal.
    Line { line: usize },
    /// Anything else names a function; the symbol table resolves it.
    Function,
}

/// Decide what a breakpoint command's argument means, the way the command
/// loop dispatches it: a `0x`-prefixed hexadecimal address, else an
/// all-digits line number, else a function name. A prefixed argument with
/// bad digits, and an all-digits argument that is empty or does not fit a
/// `usize`, resolve to nothing.
pub fn classify_breakpoint_target(point_addr: &str) -> (r: Option<BreakpointTarget>)
    ensures
        has_hex_prefix(point_addr@) && valid_hex_literal(point_addr@) ==> r == Some(
            BreakpointTarget::Address { addr: hex_val(digits_of(point_addr@)) as usize },
        ),
        has_hex_prefix(point_addr@) && !valid_hex_literal(point_addr@) ==> r is None,
        !has_hex_prefix(point_addr@) && all_dec(point_addr@) && point_addr@.len() > 0 && dec_val(
            point_addr@,
        ) <= usize::MAX ==> r == Some(
            BreakpointTarget::Line { line: dec_val(point_addr@) as usize },
        ),
        !has_hex_prefix(point_addr@) && all_dec(point_addr@) && !(point_addr@.len() > 0 && dec_val(
            point_addr@,
        ) <= usize::MAX) ==> r is None,
        !has_hex_prefix(point_addr@) && !all_dec(point_addr@) ==> r == Some(
            BreakpointTarget::Function,
        ),
{
    let n = point_addr.unicode_len();
    let hex_prefix = n >= 2 && point_addr.get_char(0) == '0' && (point_addr.get_char(1) == 'x'
        || point_addr.get_char(1) == 'X');
    if hex_prefix {
        match parse_address(point_addr) {
            Some(addr) => Some(BreakpointTarget::Address { addr }),
            None => None,
        }
    } else {
        let mut digits_only = true;
        let mut i: usize = 0;
        while i < n
            invariant
                i <= n,
                n == point_addr@.len(),
                digits_only == all_dec(point_addr@.take(i as int)),
            decreases n - i,
        {
            let u = point_addr.get_char(i) as u32;
            let d = 48 <= u && u <= 57;
            proof {
                let t = point_addr@.take(i + 1);
                assert(t[i as int] == point_addr@[i as int]);
                assert(d == is_dec_digit(point_addr@[i as int]));
                if digits_only && d {
                    assert forall|j: int| 0 <= j < t.len() implies is_dec_digit(
                        #[trigger] t[j],
                    ) by {
                        if j < i {
                            assert(t[j] == point_addr@.take(i as int)[j]);
                        }
                    }
                } else if !digits_only {
                    let w = choose|j: int|
                        0 <= j < i && !is_dec_digit(#[trigger] point_addr@.take(i as int)[j]);
                    assert(!is_dec_digit(t[w]));
                }
            }
            if !d {
                digits_only = false;
            }
            i += 1;
        }
        proof {
            assert(point_addr@.take(n as int) =~= point_addr@);
        }
        if digits_only {
            match parse_line_number(point_addr) {
                Some(line) => Some(BreakpointTarget::Line { line }),
                None => None,
            }
        } else {
            Some(BreakpointTarget::Function)
        }
    }
}

/// One breakpoint the user asked for: its number and its resolved address.
pub struct BreakpointPlan {
    pub id: i64,
    pub addr: usize,
}

/// The command loop's bookkeeping: every breakpoint set so far, in order,
/// and the number the next one gets. The loop re-arms this list each time a
/// fresh child process starts.
pub struct DebuggerState {
    pub breakpoints: Vec<BreakpointPlan>,
    pub breakpoint_count: i64,
}

impl DebuggerState {
    /// Breakpoint numbering starts at zero with nothing recorded.
    pub fn new() -> (st: DebuggerState)
        ensures
            st.breakpoint_count == 0,
            st.breakpoints@ == Seq::<BreakpointPlan>::empty(),
    {
        DebuggerState { breakpoints: Vec::new(), breakpoint_count: 0 }
    }

    /// Record one breakpoint at `addr`: it gets the next number, the number
    /// advances, and every earlier breakpoint stays as it was.
    pub fn record_breakpoint(&mut self, addr: usize) -> (id: i64)
        requires
            old(self).breakpoint_count < i64::MAX,
        ensures
            id == old(self).breakpoint_count,
            final(self).breakpoint_count == old(self).breakpoint_count + 1,
            final(self).breakpoints@ == old(self).breakpoints@.push(
                BreakpointPlan { id, addr },
            ),
    {
        let id = self.breakpoint_count;
        self.breakpoints.push(BreakpointPlan { id, addr });
        self.breakpoint_count = self.breakpoint_count + 1;
        id
    }
}

/// Read a breakpoint target as a hexadecimal address: an optional `0x`/`0X`
/// prefix and an optional plus sign, then one or more hexadecimal digits
/// whose value fits a `usize`; anything else is no address.
pub fn parse_address(addr: &str) -> (r: Option<usize>)
    ensures
        (r is Some <==> {
            let d = digits_of(addr@);
            d.len() > 0 && all_hex(d) && hex_val(d) <= usize::MAX
        }),
        (r matches Some(v) ==> v == hex_val(digits_of(addr@))),
{
    let n = addr.unicode_len();
    let mut start: usize = 0;
    if n >= 2 && addr.get_char(0) == '0' && (addr.get_char(1) == 'x' || addr.get_char(1) == 'X') {
        start = 2;
    }
    if n > start && addr.get_char(start) == '+' {
        start += 1;
    }
    let ghost d = digits_of(addr@);
    proof {
        assert(d =~= addr@.subrange(start as int, n as int));
    }
    if start == n {
        return None;
    }
    let mut val: u128 = 0;
    let mut i: usize = start;
    while i < n
        invariant
            start <= i <= n,
            start < n,
            n == addr@.len(),
            d == digits_of(addr@),
            d =~= addr@.subrange(start as int, n as int),
            val <= usize::MAX as u128,
            all_hex(addr@.subrange(start as int, i as int)),
            val == hex_val(addr@.subrange(start as int, i as int)),
        decreases n - i,
    {
        let c = addr.get_char(i);
        let u = c as u32;
        let dv: u32 = if 48 <= u && u <= 57 {
            u - 48
        } else if 97 <= u && u <= 102 {
            u - 87
        } else if 65 <= u && u <= 70 {
            u - 55
        } else {
            proof {
                assert(d[i - start] == addr@[i as int]);
                assert(!is_hex_digit(addr@[i as int]));
            }
            return None;
        };
        proof {
            let t = addr@.subrange(start as int, i + 1);
            assert(t.drop_last() =~= addr@.subrange(start as int, i as int));
            assert(t.last() == addr@[i as int]);
            assert(is_hex_digit(addr@[i as int]));
            assert(hex_digit_val(addr@[i as int]) == dv as nat);
        }
        val = val * 16 + dv as u128;
        if val > usize::MAX as u128 {
            proof {
                assert(val == hex_val(addr@.subrange(start as int, i + 1)));
                assert(addr@.subrange(start as int, i + 1) =~= d.take(i + 1 - start));
                lemma_hex_val_prefix(d, i + 1 - start);
            }
            return None;
        }
        i += 1;
    }
    proof {
        assert(addr@.subrange(start as int, n as int) =~= d);
    }
    Some(val as usize)
}

} // verus!
