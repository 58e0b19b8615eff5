use sysinfo::{PidExt, SystemExt};
use vstd::prelude::*;

use crate::time::{
    all_digits, decimal, digit_char, digit_value, digits_value, lemma_decimal_digits,
    lemma_digit_char,
};

verus! {

/// A path that `shellexpand::tilde` expands: a leading `~` that ends the path or is followed
/// by `/`.
pub open spec fn starts_with_home(path: Seq<char>) -> bool {
    path.len() > 0 && path[0] == '~' && (path.len() == 1 || path[1] == '/')
}

/// What tilde expansion may give for `path`: the path itself when it does not start with the
/// home directory shorthand; otherwise the path itself (no home directory known) or some home
/// directory followed by the rest of the path after the `~`.
pub open spec fn tilde_expansion_of(path: Seq<char>, expanded: Seq<char>) -> bool {
    if starts_with_home(path) {
        expanded == path || (expanded.len() >= path.len() - 1 && expanded.subrange(
            expanded.len() - (path.len() - 1),
            expanded.len() as int,
        ) == path.drop_first())
    } else {
        expanded == path
    }
}

/// `shellexpand::tilde` (on Unix): replaces a leading `~` that ends the path or is followed by
/// `/` with the home directory, and leaves any other path as it is.
/// Claimed: a path that does not start so comes back unchanged; one that does comes back
/// unchanged or as some text followed by the path after its `~`. Which home directory is used
/// depends on the environment and is not stated. The claim is for Unix, the only platform this
/// daemon runs on: on Windows the crate also expands `~\`, which the claim does not allow.
#[verifier::external_body]
fn expand_tilde(path: &str) -> (expanded: String)
    ensures
        tilde_expansion_of(path@, expanded@),
{
    shellexpand::tilde(path).to_string()
}

/// `std::path::Path::exists` on `path`. Nothing is claimed of the answer: it depends on what is
/// on disk.
#[verifier::external_body]
fn path_exists(path: &str) -> bool {
    std::path::Path::new(path).exists()
}

#[verifier::external_type_specification]
#[verifier::external_body]
pub struct ExSystem(sysinfo::System);

/// `sysinfo::SystemExt::new_all`: a snapshot of the running system. Nothing is claimed of it.
#[verifier::external_body]
fn system_snapshot() -> sysinfo::System {
    sysinfo::System::new_all()
}

/// `sysinfo::SystemExt::process` for the process id `pid`: whether the snapshot lists such a
/// process. Nothing is claimed of the answer: it depends on the processes running.
#[verifier::external_body]
fn process_listed(system: &sysinfo::System, pid: i32) -> bool {
    system.process(sysinfo::Pid::from_u32(pid as u32)).is_some()
}

/// Expands a leading `~` in a path to the home directory.
pub fn expand_path(path: &String) -> (expanded: String)
    ensures
        tilde_expansion_of(path@, expanded@),
{
    expand_tilde(path.as_str())
}

/// Whether the file at `path`, after tilde expansion, exists. The answer depends on what is
/// on disk, so no clause states it.
pub fn file_exists(path: &String) -> bool {
    let expanded = expand_path(path);
    path_exists(expanded.as_str())
}

/// An ASCII decimal digit byte.
pub open spec fn is_digit_byte(b: u8) -> bool {
    48 <= b <= 57
}

/// The number written by a run of ASCII digit bytes.
pub open spec fn byte_digits_value(s: Seq<u8>) -> nat
    decreases s.len(),
{
    if s.len() == 0 {
        0
    } else {
        byte_digits_value(s.drop_last()) * 10 + (s.last() - 48) as nat
    }
}

/// The length of the sign at the front of a number's text: one for `+` or `-`, else zero.
pub open spec fn sign_length(text: Seq<u8>) -> int {
    if text.len() > 0 && (text[0] == 45 || text[0] == 43) {
        1
    } else {
        0
    }
}

/// The integer that a text of bytes writes in decimal: an optional `+` or `-` sign followed by
/// one or more ASCII digits, and nothing else.
pub open spec fn decimal_integer(text: Seq<u8>) -> Option<int> {
    let digits = text.subrange(sign_length(text), text.len() as int);
    if digits.len() > 0 && forall|i: int| 0 <= i < digits.len() ==> is_digit_byte(#[trigger] digits[i]) {
        let magnitude = byte_digits_value(digits) as int;
        Some(if text[0] == 45 { -magnitude } else { magnitude })
    } else {
        None
    }
}

/// The process id in the contents of a pid file: the text read as a decimal `i32`, as
/// `str::parse::<i32>` reads it; `None` when it is not one (or not within the range of `i32`).
pub open spec fn pid_in_text(text: Seq<u8>) -> Option<i32> {
    match decimal_integer(text) {
        Some(v) => if i32::MIN <= v <= i32::MAX {
            Some(v as i32)
        } else {
            None
        },
        None => None,
    }
}

proof fn lemma_digits_prefix_bounded(s: Seq<u8>, k: int)
    requires
        0 <= k <= s.len(),
        forall|i: int| 0 <= i < s.len() ==> is_digit_byte(#[trigger] s[i]),
    ensures
        byte_digits_value(s.take(k)) <= byte_digits_value(s),
    decreases s.len() - k,
{
    if k == s.len() {
        assert(s.take(k) =~= s);
    } else {
        lemma_digits_prefix_bounded(s, k + 1);
        assert(s.take(k + 1).drop_last() =~= s.take(k));
    }
}

/// Reads the contents of a pid file as a decimal `i32`.
pub fn parse_pid(text: &Vec<u8>) -> (pid: Option<i32>)
    ensures
        pid == pid_in_text(text@),
{
    let n = text.len();
    if n == 0 {
        return None;
    }
    let negative = text[0] == 45;
    let start: usize = if text[0] == 45 || text[0] == 43 {
        1
    } else {
        0
    };
    if start == n {
        return None;
    }
    let ghost digits = text@.subrange(start as int, n as int);
    assert(start == sign_length(text@));
    // The magnitude read so far; reading stops once it exceeds any that fits in an `i32`.
    let mut magnitude: u64 = 0;
    let mut k: usize = start;
    while k < n
        invariant
            start <= k <= n,
            n == text@.len(),
            digits == text@.subrange(start as int, n as int),
            start == sign_length(text@),
            forall|i: int| 0 <= i < k - start ==> is_digit_byte(#[trigger] digits[i]),
            magnitude == byte_digits_value(digits.take(k - start)),
            magnitude <= 2147483648,
        decreases n - k,
    {
        let b = text[k];
        if b < 48 || b > 57 {
            assert(!is_digit_byte(digits[k - start]));
            return None;
        }
        assert(digits.take(k - start + 1).drop_last() =~= digits.take(k - start));
        magnitude = magnitude * 10 + (b - 48) as u64;
        k = k + 1;
        if magnitude > 2147483648 {
            // Any further digits only make the number larger; the rest must still be digits
            // for the text to be a number at all.
            let mut j: usize = k;
            while j < n
                invariant
                    start <= k <= j <= n,
                    byte_digits_value(digits.take(k - start)) > 2147483648,
                    n == text@.len(),
                    digits == text@.subrange(start as int, n as int),
                    start == sign_length(text@),
                    forall|i: int| 0 <= i < j - start ==> is_digit_byte(#[trigger] digits[i]),
                decreases n - j,
            {
                if text[j] < 48 || text[j] > 57 {
                    assert(!is_digit_byte(digits[j - start]));
                    return None;
                }
                j = j + 1;
            }
            proof {
                lemma_digits_prefix_bounded(digits, k - start);
            }
            return None;
        }
    }
    assert(digits.take(n - start) =~= digits);
    if negative {
        Some((0 - magnitude as i64) as i32)
    } else if magnitude > 2147483647 {
        None
    } else {
        Some(magnitude as i32)
    }
}

/// Whether the process whose id a pid file holds is running. `contents` is what reading the
/// pid file gave, `None` where it could not be read, in which case the answer is `false`.
/// Readable contents must hold a process id. Whether that process is listed depends on the
/// processes running, so for readable contents no clause states the answer.
pub fn check_pid_file(contents: &Option<Vec<u8>>) -> (running: bool)
    requires
        contents matches Some(text) ==> pid_in_text(text@) is Some,
    ensures
        contents is None ==> !running,
{
    match contents {
        None => false,
        Some(text) => {
            let pid = parse_pid(text).unwrap();
            let system = system_snapshot();
            process_listed(&system, pid)
        },
    }
}


/// The bytes of a text of ASCII characters.
pub open spec fn ascii_bytes(text: Seq<char>) -> Seq<u8> {
    text.map_values(|c: char| (c as u32) as u8)
}

/// The text in which a process id is written to its pid file: its decimal digits, after a `-`
/// when it is negative.
pub open spec fn pid_text(pid: i32) -> Seq<u8> {
    let magnitude: nat = if pid < 0 {
        (-pid) as nat
    } else {
        pid as nat
    };
    if pid < 0 {
        seq![45u8] + ascii_bytes(decimal(magnitude))
    } else {
        ascii_bytes(decimal(magnitude))
    }
}

proof fn lemma_ascii_digits(text: Seq<char>)
    requires
        all_digits(text),
    ensures
        forall|i: int| 0 <= i < ascii_bytes(text).len() ==> is_digit_byte(#[trigger] ascii_bytes(text)[i]),
        byte_digits_value(ascii_bytes(text)) == digits_value(text),
    decreases text.len(),
{
    if text.len() > 0 {
        let shorter = text.drop_last();
        assert(all_digits(shorter));
        lemma_ascii_digits(shorter);
        assert(ascii_bytes(text).drop_last() =~= ascii_bytes(shorter));
        let c = text.last();
        assert(48 <= (c as u32) <= 57);
        assert(ascii_bytes(text).last() == (c as u32) as u8);
        assert(((c as u32) as u8 - 48) as nat == digit_value(c));
    }
}

/// A process id written to a pid file, as `pid_file_text` writes it, reads back as the same
/// process id.
pub proof fn lemma_pid_text_round_trip(pid: i32)
    ensures
        pid_in_text(pid_text(pid)) == Some(pid),
{
    let magnitude: nat = if pid < 0 {
        (-pid) as nat
    } else {
        pid as nat
    };
    lemma_decimal_digits(magnitude);
    lemma_ascii_digits(decimal(magnitude));
    let digits = ascii_bytes(decimal(magnitude));
    let text = pid_text(pid);
    assert(digits.len() >= 1);
    assert(is_digit_byte(digits[0]));
    if pid < 0 {
        assert(text[0] == 45);
        assert(text.subrange(sign_length(text), text.len() as int) =~= digits);
    } else {
        assert(text[0] != 45 && text[0] != 43);
        assert(text.subrange(sign_length(text), text.len() as int) =~= digits);
    }
}


/// Appends the ASCII decimal digits of `n` to `out`.
fn push_decimal_bytes(out: &mut Vec<u8>, n: u64)
    ensures
        final(out)@ == old(out)@ + ascii_bytes(decimal(n as nat)),
    decreases n,
{
    if n >= 10 {
        push_decimal_bytes(out, n / 10);
    }
    let d = n % 10;
    proof {
        lemma_digit_char(d as nat);
        assert(n >= 10 ==> decimal(n as nat) == decimal((n / 10) as nat).push(digit_char(d as nat)));
        assert(n < 10 ==> decimal(n as nat) == seq![digit_char(d as nat)]);
        assert(((digit_char(d as nat) as u32) as u8) == 48 + d);
    }
    out.push(48 + d as u8);
    proof {
        if n >= 10 {
            assert(ascii_bytes(decimal(n as nat)) =~= ascii_bytes(decimal((n / 10) as nat)).push(
                (48 + d) as u8,
            ));
        } else {
            assert(ascii_bytes(decimal(n as nat)) =~= seq![(48 + d) as u8]);
        }
        assert(final(out)@ =~= old(out)@ + ascii_bytes(decimal(n as nat)));
    }
}

/// The text to write to a pid file for the process `pid`: its decimal digits, after a `-`
/// when it is negative.
pub fn pid_file_text(pid: i32) -> (text: Vec<u8>)
    ensures
        text@ == pid_text(pid),
{
    let mut text: Vec<u8> = Vec::new();
    if pid < 0 {
        text.push(45);
        let magnitude = (0i64 - pid as i64) as u64;
        push_decimal_bytes(&mut text, magnitude);
    } else {
        push_decimal_bytes(&mut text, pid as u64);
    }
    assert(text@ =~= pid_text(pid));
    text
}

} // verus!
