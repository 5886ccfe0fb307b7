//! The command line AutoStart understands: `--minimized` and `--wait-for-pid <pid>`.
use vstd::prelude::*;

use crate::text::{chars_of, decimal, decimal_text, digit_char, is_ascii_digit, owned, same_text};

verus! {

pub const MINIMIZED_FLAG: &'static str = "--minimized";
pub const WAIT_FOR_PID_FLAG: &'static str = "--wait-for-pid";
pub const PREVIOUS_INSTANCE_TIMEOUT_MS: u64 = 10_000;
pub const PREVIOUS_INSTANCE_POLL_MS: u64 = 200;

/// How this instance was started.
#[derive(Debug, Clone, Copy, PartialEq, Eq, Structural)]
pub struct LaunchArgs {
    pub minimized: bool,
    pub previous_instance_pid: Option<u32>,
}

impl Default for LaunchArgs {
    fn default() -> (args: Self)
        ensures
            args == (LaunchArgs { minimized: false, previous_instance_pid: None }),
    {
        LaunchArgs { minimized: false, previous_instance_pid: None }
    }
}

/// The value of a run of decimal digits.
pub open spec fn digits_value(digits: Seq<char>) -> int
    decreases digits.len(),
{
    if digits.len() == 0 {
        0
    } else {
        digits_value(digits.drop_last()) * 10 + (digits.last() as int - '0' as int)
    }
}

/// The text without a leading `+`.
pub open spec fn unsigned_part(text: Seq<char>) -> Seq<char> {
    if text.len() > 0 && text[0] == '+' {
        text.drop_first()
    } else {
        text
    }
}

/// What `str::parse::<u32>` accepts: an optional `+` and one or more ASCII digits whose value
/// fits in a `u32`.
pub open spec fn parsed_u32(text: Seq<char>) -> Option<u32> {
    let digits = unsigned_part(text);
    if digits.len() > 0 && (forall|i: int| 0 <= i < digits.len() ==> is_ascii_digit(#[trigger] digits[i]))
        && digits_value(digits) <= u32::MAX {
        Some(digits_value(digits) as u32)
    } else {
        None
    }
}

/// A run of digits is worth at least any of its prefixes.
proof fn lemma_digits_value_grows(digits: Seq<char>, k: int)
    requires
        0 <= k <= digits.len(),
        forall|i: int| 0 <= i < digits.len() ==> is_ascii_digit(#[trigger] digits[i]),
    ensures
        digits_value(digits.take(k)) <= digits_value(digits),
        0 <= digits_value(digits),
    decreases digits.len(),
{
    if digits.len() > 0 {
        let rest = digits.drop_last();
        assert forall|i: int| 0 <= i < rest.len() implies is_ascii_digit(#[trigger] rest[i]) by {
            assert(rest[i] == digits[i]);
        }
        if k < digits.len() {
            assert(digits.take(k) =~= rest.take(k));
            lemma_digits_value_grows(rest, k);
        } else {
            assert(digits.take(k) =~= digits);
            lemma_digits_value_grows(rest, 0);
        }
        assert(is_ascii_digit(digits.last()));
    }
}

/// What `str::parse::<u32>` answers: an optional `+` sign followed by decimal digits, without
/// overflow; anything else is an error.
fn parse_pid(text: &str) -> (pid: Option<u32>)
    ensures
        pid == parsed_u32(text@),
{
    let chars = chars_of(text);
    let start: usize = if chars.len() > 0 && chars[0] == '+' {
        1
    } else {
        0
    };
    let ghost digits = unsigned_part(text@);
    assert(digits =~= chars@.subrange(start as int, chars@.len() as int));
    if start >= chars.len() {
        return None;
    }
    let mut value: u64 = 0;
    let mut i: usize = start;
    while i < chars.len()
        invariant
            start <= i <= chars@.len(),
            chars@ == text@,
            digits == chars@.subrange(start as int, chars@.len() as int),
            digits == unsigned_part(text@),
            forall|j: int| 0 <= j < i - start ==> is_ascii_digit(#[trigger] digits[j]),
            value == digits_value(digits.take(i - start)),
            value <= u32::MAX,
        decreases chars@.len() - i,
    {
        let c = chars[i];
        assert(digits[i - start] == c);
        if !('0' <= c && c <= '9') {
            assert(!is_ascii_digit(digits[i - start]));
            return None;
        }
        assert(digits.take(i - start + 1).drop_last() =~= digits.take(i - start));
        assert(digits.take(i - start + 1).last() == c);
        assert(digits_value(digits.take(i - start + 1)) == value * 10 + (c as int - '0' as int));
        let next = value * 10 + ((c as u32) - ('0' as u32)) as u64;
        if next > u32::MAX as u64 {
            proof {
                assert(text@ == chars@);
                if forall|j: int| 0 <= j < digits.len() ==> is_ascii_digit(#[trigger] digits[j]) {
                    lemma_digits_value_grows(digits, i - start + 1);
                }
            }
            return None;
        }
        value = next;
        i = i + 1;
    }
    assert(digits.take(i - start) =~= digits);
    Some(value as u32)
}

/// The arguments from position `i` on, read into what has been found so far.
pub open spec fn parsed_from(args: Seq<Seq<char>>, i: int, found: LaunchArgs) -> LaunchArgs
    decreases args.len() - i,
{
    if i < 0 || i >= args.len() {
        found
    } else if args[i] == MINIMIZED_FLAG@ {
        parsed_from(args, i + 1, LaunchArgs { minimized: true, ..found })
    } else if args[i] == WAIT_FOR_PID_FLAG@ {
        if i + 1 < args.len() {
            parsed_from(
                args,
                i + 2,
                LaunchArgs { previous_instance_pid: parsed_u32(args[i + 1]), ..found },
            )
        } else {
            LaunchArgs { previous_instance_pid: None, ..found }
        }
    } else {
        parsed_from(args, i + 1, found)
    }
}

/// What the arguments (without the program name) ask for.
pub open spec fn parsed_args(args: Seq<Seq<char>>) -> LaunchArgs {
    parsed_from(args, 0, LaunchArgs { minimized: false, previous_instance_pid: None })
}

impl LaunchArgs {
    /// Reads the arguments in order; unknown ones are ignored and a pid that does not parse
    /// counts as none.
    pub fn parse(args: Vec<String>) -> (parsed: LaunchArgs)
        ensures
            parsed == parsed_args(args.deep_view()),
    {
        let ghost all = args.deep_view();
        let mut parsed = LaunchArgs { minimized: false, previous_instance_pid: None };
        let mut i: usize = 0;
        while i < args.len()
            invariant
                all == args.deep_view(),
                i <= all.len(),
                parsed_from(all, i as int, parsed) == parsed_args(all),
            decreases all.len() - i,
        {
            assert(all[i as int] == args@[i as int]@);
            if same_text(args[i].as_str(), MINIMIZED_FLAG) {
                parsed.minimized = true;
                i = i + 1;
            } else if same_text(args[i].as_str(), WAIT_FOR_PID_FLAG) {
                if i + 1 < args.len() {
                    assert(all[i + 1] == args@[i + 1]@);
                    parsed.previous_instance_pid = parse_pid(args[i + 1].as_str());
                    i = i + 2;
                } else {
                    parsed.previous_instance_pid = None;
                    return parsed;
                }
            } else {
                i = i + 1;
            }
        }
        parsed
    }
}

/// The arguments that make a new instance wait for `pid` to exit.
pub fn wait_for_pid_args(pid: u32) -> (args: String)
    ensures
        args@ == WAIT_FOR_PID_FLAG@ + " "@ + decimal(pid as nat),
{
    owned(WAIT_FOR_PID_FLAG).concat(" ").concat(decimal_text(pid as u64).as_str())
}

proof fn lemma_decimal_digits(n: nat)
    ensures
        decimal(n).len() > 0,
        forall|i: int| 0 <= i < decimal(n).len() ==> is_ascii_digit(#[trigger] decimal(n)[i]),
        digits_value(decimal(n)) == n,
    decreases n,
{
    let d = n % 10;
    assert(((d + 48) as u8) as int == d + 48);
    assert(digit_char(d) as int == d + 48);
    assert('0' as int == 48);
    if n < 10 {
        assert(decimal(n).drop_last() =~= Seq::<char>::empty());
        assert(d == n);
        assert(digits_value(Seq::<char>::empty()) == 0);
        assert(digits_value(decimal(n)) == digits_value(decimal(n).drop_last()) * 10 + (
        decimal(n).last() as int - '0' as int));
    }
    if n >= 10 {
        lemma_decimal_digits(n / 10);
        let rest = decimal(n / 10);
        assert(decimal(n).drop_last() =~= rest);
        assert(decimal(n).last() == digit_char(d));
        assert((n / 10) * 10 + d == n);
        assert(digits_value(decimal(n)) == digits_value(rest) * 10 + (digit_char(d) as int - '0' as int));
        assert forall|i: int| 0 <= i < decimal(n).len() implies is_ascii_digit(#[trigger] decimal(n)[i]) by {
            if i < rest.len() {
                assert(decimal(n)[i] == rest[i]);
            }
        }
    }
}

/// The arguments written by `wait_for_pid_args` read back as the same pid.
pub proof fn lemma_wait_for_pid_round_trip(pid: u32)
    ensures
        parsed_args(seq![WAIT_FOR_PID_FLAG@, decimal(pid as nat)]).previous_instance_pid == Some(pid),
{
    reveal_strlit("--wait-for-pid");
    reveal_strlit("--minimized");
    lemma_decimal_digits(pid as nat);
    let args = seq![WAIT_FOR_PID_FLAG@, decimal(pid as nat)];
    assert(args[0] != MINIMIZED_FLAG@) by {
        assert(args[0][2] != MINIMIZED_FLAG@[2]);
    }
    assert(is_ascii_digit(decimal(pid as nat)[0]));
    assert(parsed_u32(decimal(pid as nat)) == Some(pid));
    reveal_with_fuel(parsed_from, 3);
}

} // verus!
