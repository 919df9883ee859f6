//! Host-resource sampling: parsers for the standard utilities' output and
//! the shell quoting used to ask for them.
//!
//! The worker runs `LANG=C top -bn1`, `LANG=C free -m` and `LANG=C df -P
//! <path>` over short exec channels and hands the captured text here.
//! Percentages are carried in hundredths of a percent; a field whose parse
//! fails is absent, never invented.

use vstd::prelude::*;
use vstd::string::StringSliceAdditionalSpecFns;
use vstd::string::StringExecFns;
use vstd::string::StrSliceExecFns;
use vstd::slice::slice_to_vec;
use crate::session::ResourceSnapshot;
use crate::textscan::{is_blank, trimmed};

verus! {

broadcast use vstd::seq_lib::group_seq_lib_default;

/// Whitespace inside utility output: space, tab, carriage return, newline.
pub open spec fn is_ws_b(b: u8) -> bool {
    b == 32 || b == 9 || b == 13 || b == 10
}

fn is_ws_byte(b: u8) -> (r: bool)
    ensures
        r == is_ws_b(b),
{
    b == 32 || b == 9 || b == 13 || b == 10
}

pub open spec fn is_digit_b(b: u8) -> bool {
    48 <= b <= 57
}

/// First position of `target`, or the length when it never occurs.
pub open spec fn first_byte(s: Seq<u8>, target: u8) -> int
    decreases s.len(),
{
    if s.len() == 0 {
        0
    } else if s[0] == target {
        0
    } else {
        1 + first_byte(s.drop_first(), target)
    }
}

/// Establishes `first_byte` from a scan that stopped at `k`.
pub proof fn lemma_first_byte_at(s: Seq<u8>, target: u8, k: int)
    requires
        0 <= k <= s.len(),
        forall|j: int| 0 <= j < k ==> (#[trigger] s[j]) != target,
        k < s.len() ==> s[k] == target,
    ensures
        first_byte(s, target) == k,
    decreases s.len(),
{
    if k > 0 {
        lemma_first_byte_at(s.drop_first(), target, k - 1);
    }
}

/// First position of whitespace, or the length.
pub open spec fn first_ws(s: Seq<u8>) -> int
    decreases s.len(),
{
    if s.len() == 0 {
        0
    } else if is_ws_b(s[0]) {
        0
    } else {
        1 + first_ws(s.drop_first())
    }
}

pub proof fn lemma_first_ws_at(s: Seq<u8>, k: int)
    requires
        0 <= k <= s.len(),
        forall|j: int| 0 <= j < k ==> !is_ws_b(#[trigger] s[j]),
        k < s.len() ==> is_ws_b(s[k]),
    ensures
        first_ws(s) == k,
    decreases s.len(),
{
    if k > 0 {
        lemma_first_ws_at(s.drop_first(), k - 1);
    }
}

proof fn lemma_first_ws_bounds(s: Seq<u8>)
    ensures
        0 <= first_ws(s) <= s.len(),
        s.len() > 0 && !is_ws_b(s[0]) ==> first_ws(s) >= 1,
    decreases s.len(),
{
    if s.len() > 0 {
        lemma_first_ws_bounds(s.drop_first());
    }
}

/// The whitespace-separated tokens of a line.
pub open spec fn spec_tokens(s: Seq<u8>) -> Seq<Seq<u8>>
    decreases s.len(),
    when s.len() >= 0
    via spec_tokens_decreases
{
    if s.len() == 0 {
        Seq::empty()
    } else if is_ws_b(s[0]) {
        spec_tokens(s.drop_first())
    } else {
        seq![s.take(first_ws(s))] + spec_tokens(s.skip(first_ws(s)))
    }
}

#[via_fn]
proof fn spec_tokens_decreases(s: Seq<u8>) {
    if s.len() > 0 && !is_ws_b(s[0]) {
        lemma_first_ws_bounds(s);
    }
}

/// The lines of an output: maximal runs between newline bytes; a final
/// fragment without a newline is a line of its own.
pub open spec fn spec_lines(s: Seq<u8>) -> Seq<Seq<u8>>
    decreases s.len(),
    when s.len() >= 0
    via spec_lines_decreases
{
    if s.len() == 0 {
        Seq::empty()
    } else if first_byte(s, 10) < s.len() {
        seq![s.take(first_byte(s, 10))] + spec_lines(s.skip(first_byte(s, 10) + 1))
    } else {
        seq![s]
    }
}

proof fn lemma_first_byte_bounds(s: Seq<u8>, target: u8)
    ensures
        0 <= first_byte(s, target) <= s.len(),
    decreases s.len(),
{
    if s.len() > 0 {
        lemma_first_byte_bounds(s.drop_first(), target);
    }
}

#[via_fn]
proof fn spec_lines_decreases(s: Seq<u8>) {
    if s.len() > 0 {
        lemma_first_byte_bounds(s, 10);
    }
}

/// Views of a list of byte vectors.
pub open spec fn chunks_view(v: Seq<Vec<u8>>) -> Seq<Seq<u8>> {
    v.map_values(|c: Vec<u8>| c@)
}

/// Splits a line into its whitespace-separated tokens.
pub fn split_ws(line: &[u8]) -> (r: Vec<Vec<u8>>)
    ensures
        chunks_view(r@) == spec_tokens(line@),
{
    let n: usize = line.len();
    let mut out: Vec<Vec<u8>> = Vec::new();
    let mut i: usize = 0;
    proof {
        assert(line@.skip(0) =~= line@);
        assert(chunks_view(out@) + spec_tokens(line@) =~= spec_tokens(line@));
    }
    while i < n
        invariant
            n == line@.len(),
            i <= n,
            chunks_view(out@) + spec_tokens(line@.skip(i as int)) == spec_tokens(line@),
        decreases n - i,
    {
        if is_ws_byte(line[i]) {
            proof {
                assert(line@.skip(i as int).drop_first() =~= line@.skip(i + 1));
            }
            i = i + 1;
        } else {
            let mut j: usize = i + 1;
            while j < n && !is_ws_byte(line[j])
                invariant
                    n == line@.len(),
                    i < j <= n,
                    forall|m: int| i <= m < j ==> !is_ws_b(#[trigger] line@[m]),
                decreases n - j,
            {
                j = j + 1;
            }
            let tok: Vec<u8> = slice_to_vec(&line[i..j]);
            proof {
                let rest = line@.skip(i as int);
                assert(forall|m: int| 0 <= m < j - i ==> rest[m] == line@[i + m]);
                lemma_first_ws_at(rest, j - i);
                assert(rest.take(j - i) =~= line@.subrange(i as int, j as int));
                assert(rest.skip(j - i) =~= line@.skip(j as int));
                assert(spec_tokens(rest) == seq![line@.subrange(i as int, j as int)]
                    + spec_tokens(line@.skip(j as int)));
                assert(tok@ == line@.subrange(i as int, j as int));
                assert(chunks_view(out@.push(tok)) =~= chunks_view(out@).push(tok@));
                assert(chunks_view(out@).push(tok@) + spec_tokens(line@.skip(j as int))
                    =~= chunks_view(out@) + spec_tokens(line@.skip(i as int)));
            }
            out.push(tok);
            i = j;
        }
    }
    proof {
        assert(line@.skip(n as int) =~= Seq::<u8>::empty());
        assert(chunks_view(out@) =~= spec_tokens(line@));
    }
    out
}

/// Splits an output into its lines.
pub fn split_lines(s: &[u8]) -> (r: Vec<Vec<u8>>)
    ensures
        chunks_view(r@) == spec_lines(s@),
{
    let n: usize = s.len();
    let mut out: Vec<Vec<u8>> = Vec::new();
    let mut i: usize = 0;
    proof {
        assert(s@.skip(0) =~= s@);
        assert(chunks_view(out@) + spec_lines(s@) =~= spec_lines(s@));
    }
    while i < n
        invariant
            n == s@.len(),
            i <= n,
            chunks_view(out@) + spec_lines(s@.skip(i as int)) == spec_lines(s@),
        decreases n - i,
    {
        let mut j: usize = i;
        while j < n && s[j] != 10
            invariant
                n == s@.len(),
                i <= j <= n,
                forall|m: int| i <= m < j ==> (#[trigger] s@[m]) != 10,
            decreases n - j,
        {
            j = j + 1;
        }
        let line: Vec<u8> = slice_to_vec(&s[i..j]);
        proof {
            let rest = s@.skip(i as int);
            assert(forall|m: int| 0 <= m < j - i ==> rest[m] == s@[i + m]);
            lemma_first_byte_at(rest, 10, j - i);
            assert(rest.take(j - i) =~= s@.subrange(i as int, j as int));
            assert(line@ == s@.subrange(i as int, j as int));
            if j < n {
                assert(rest.skip(j - i + 1) =~= s@.skip(j + 1));
                assert(spec_lines(rest) == seq![s@.subrange(i as int, j as int)] + spec_lines(
                    s@.skip(j + 1),
                ));
            } else {
                assert(spec_lines(rest) =~= seq![s@.subrange(i as int, j as int)]);
                assert(spec_lines(s@.skip(n as int)) =~= Seq::<Seq<u8>>::empty());
            }
            assert(chunks_view(out@.push(line)) =~= chunks_view(out@).push(line@));
        }
        out.push(line);
        if j < n {
            i = j + 1;
        } else {
            i = n;
        }
    }
    proof {
        assert(s@.skip(n as int) =~= Seq::<u8>::empty());
        assert(chunks_view(out@) =~= spec_lines(s@));
    }
    out
}

/// Compares two byte sequences for equality.
pub fn bytes_eq(a: &[u8], b: &[u8]) -> (r: bool)
    ensures
        r == (a@ == b@),
{
    let alen: usize = a.len();
    if alen != b.len() {
        return false;
    }
    let mut i: usize = 0;
    while i < alen
        invariant
            alen == a@.len(),
            alen == b@.len(),
            i <= alen,
            forall|k: int| 0 <= k < i ==> a@[k] == b@[k],
        decreases alen - i,
    {
        if a[i] != b[i] {
            return false;
        }
        i = i + 1;
    }
    proof {
        assert(a@ =~= b@);
    }
    true
}

/// `n` occurs in `h` starting at `i`.
pub open spec fn contains_b_at(h: Seq<u8>, n: Seq<u8>, i: int) -> bool {
    0 <= i && i + n.len() <= h.len() && h.subrange(i, i + n.len()) == n
}

/// `n` occurs somewhere in `h`.
pub open spec fn contains_b(h: Seq<u8>, n: Seq<u8>) -> bool {
    exists|i: int| contains_b_at(h, n, i)
}

/// Substring search on bytes.
pub fn bytes_contains(h: &[u8], n: &[u8]) -> (r: bool)
    ensures
        r == contains_b(h@, n@),
{
    let hlen: usize = h.len();
    let nlen: usize = n.len();
    if nlen > hlen {
        assert(forall|i: int| !contains_b_at(h@, n@, i));
        return false;
    }
    let mut i: usize = 0;
    while i <= hlen - nlen
        invariant
            hlen == h@.len(),
            nlen == n@.len(),
            nlen <= hlen,
            i <= hlen - nlen + 1,
            forall|k: int| 0 <= k < i ==> !contains_b_at(h@, n@, k),
        decreases hlen - nlen - i + 1,
    {
        let mut j: usize = 0;
        let mut mismatch: bool = false;
        while j < nlen
            invariant
                hlen == h@.len(),
                nlen == n@.len(),
                i + nlen <= hlen,
                j <= nlen,
                !mismatch ==> forall|m: int| 0 <= m < j ==> h@[i + m] == n@[m],
                mismatch ==> exists|m: int| 0 <= m < nlen && h@[i + m] != n@[m],
            decreases nlen - j,
        {
            if h[i + j] != n[j] {
                mismatch = true;
                j = nlen;
            } else {
                j = j + 1;
            }
        }
        if !mismatch {
            proof {
                assert(h@.subrange(i as int, i + n@.len()) =~= n@);
                assert(contains_b_at(h@, n@, i as int));
            }
            return true;
        }
        proof {
            let m = choose|m: int| 0 <= m < nlen && h@[i + m] != n@[m];
            assert(h@.subrange(i as int, i + n@.len())[m] == h@[i + m]);
            assert(!contains_b_at(h@, n@, i as int));
        }
        i = i + 1;
    }
    proof {
        assert(forall|k: int| contains_b_at(h@, n@, k) ==> 0 <= k <= hlen - nlen);
    }
    false
}

/// Saturation bound for the integer part of a parsed value.
pub open spec fn capped(v: int) -> int {
    if v > 100_000_000_000 {
        100_000_000_000
    } else {
        v
    }
}

/// Value of a digit run, most significant first.
pub open spec fn digits_val(s: Seq<u8>) -> int
    decreases s.len(),
{
    if s.len() == 0 {
        0
    } else {
        digits_val(s.drop_last()) * 10 + (s.last() - 48)
    }
}

/// Hundredths contributed by the fraction digits (at most two are read).
pub open spec fn frac2(f: Seq<u8>) -> int {
    if f.len() == 0 {
        0
    } else if f.len() == 1 {
        (f[0] - 48) * 10
    } else {
        (f[0] - 48) * 10 + (f[1] - 48)
    }
}

/// A decimal number: digits with at most one point among them, at least
/// one digit somewhere.
pub open spec fn valid_decimal(t: Seq<u8>) -> bool {
    &&& t.len() > 0
    &&& forall|i: int| 0 <= i < t.len() ==> (is_digit_b(#[trigger] t[i]) || t[i] == 46)
    &&& exists|i: int| 0 <= i < t.len() && is_digit_b(#[trigger] t[i])
    &&& forall|i: int| first_byte(t, 46) < i < t.len() ==> (#[trigger] t[i]) != 46
}

/// The integer part: everything before the point.
pub open spec fn int_part(t: Seq<u8>) -> Seq<u8> {
    t.take(first_byte(t, 46))
}

/// The fraction part: everything after the point.
pub open spec fn frac_part(t: Seq<u8>) -> Seq<u8> {
    if first_byte(t, 46) < t.len() {
        t.skip(first_byte(t, 46) + 1)
    } else {
        Seq::empty()
    }
}

/// What a number token parses to, in hundredths: the integer part
/// (saturated high) times one hundred plus the first two fraction digits.
pub open spec fn spec_parse_centi(t: Seq<u8>) -> Option<u64> {
    if valid_decimal(t) {
        Option::Some((capped(digits_val(int_part(t))) * 100 + frac2(frac_part(t))) as u64)
    } else {
        Option::None
    }
}

/// Parses a number token into hundredths.
pub fn parse_centi(t: &[u8]) -> (r: Option<u64>)
    ensures
        r == spec_parse_centi(t@),
        r matches Option::Some(v) ==> v <= 10_000_000_000_099,
{
    let n: usize = t.len();
    if n == 0 {
        return Option::None;
    }
    let mut dot: usize = n;
    let mut seen_digit: bool = false;
    let mut i: usize = 0;
    while i < n
        invariant
            n == t@.len(),
            i <= n,
            dot == n || (dot < i && t@[dot as int] == 46),
            forall|k: int| 0 <= k < i && k != dot ==> is_digit_b(#[trigger] t@[k]),
            forall|k: int| 0 <= k < i && k != dot ==> (#[trigger] t@[k]) != 46,
            seen_digit <==> exists|k: int| 0 <= k < i && is_digit_b(#[trigger] t@[k]),
        decreases n - i,
    {
        let b: u8 = t[i];
        if b == 46 {
            if dot < n {
                proof {
                    lemma_first_byte_at(t@, 46, dot as int);
                    assert(!valid_decimal(t@));
                }
                return Option::None;
            }
            dot = i;
        } else if 48 <= b && b <= 57 {
            seen_digit = true;
        } else {
            proof {
                assert(!(is_digit_b(t@[i as int]) || t@[i as int] == 46));
            }
            return Option::None;
        }
        i = i + 1;
    }
    if !seen_digit {
        proof {
            assert(forall|k: int| 0 <= k < n ==> !is_digit_b(#[trigger] t@[k]));
        }
        return Option::None;
    }
    proof {
        lemma_first_byte_at(t@, 46, dot as int);
        assert(valid_decimal(t@));
    }
    // Integer part, saturated.
    let int_end: usize = dot;
    let mut acc: u64 = 0;
    let mut k: usize = 0;
    while k < int_end
        invariant
            n == t@.len(),
            int_end == dot,
            dot <= n,
            dot == n || t@[dot as int] == 46,
            forall|m: int| 0 <= m < n && m != dot ==> is_digit_b(#[trigger] t@[m]),
            k <= int_end,
            acc == capped(digits_val(t@.subrange(0, k as int))),
            acc <= 100_000_000_000,
        decreases int_end - k,
    {
        let d: u64 = (t[k] - 48) as u64;
        let cand: u64 = acc * 10 + d;
        proof {
            let pre = t@.subrange(0, k as int);
            let post = t@.subrange(0, k + 1);
            assert(post.drop_last() =~= pre);
            assert(post.last() == t@[k as int]);
            assert(digits_val(post) == digits_val(pre) * 10 + (t@[k as int] - 48));
        }
        if cand > 100_000_000_000 {
            acc = 100_000_000_000;
        } else {
            acc = cand;
        }
        k = k + 1;
    }
    proof {
        assert(t@.subrange(0, dot as int) =~= int_part(t@));
    }
    // Fraction part: at most two digits are read.
    let mut frac: u64 = 0;
    if dot < n {
        proof {
            assert(frac_part(t@) =~= t@.skip(dot + 1));
        }
        if dot + 1 < n {
            let d1: u64 = (t[dot + 1] - 48) as u64;
            frac = d1 * 10;
            if dot + 2 < n {
                let d2: u64 = (t[dot + 2] - 48) as u64;
                frac = frac + d2;
            }
            proof {
                assert(t@.skip(dot + 1)[0] == t@[dot + 1]);
                if dot + 2 < n {
                    assert(t@.skip(dot + 1)[1] == t@[dot + 2]);
                }
            }
        }
    }
    Option::Some(acc * 100 + frac)
}

/// Clamps a hundredths value into the percentage range.
pub open spec fn clamp_centi(v: int) -> u32 {
    if v < 0 {
        0
    } else if v > 10_000 {
        10_000
    } else {
        v as u32
    }
}

/// What one character contributes to the quoted form: a single quote is
/// closed, escaped and reopened; everything else passes through.
pub open spec fn esc_char(c: char) -> Seq<char> {
    if c == '\'' {
        seq!['\'', '\\', '\'', '\'']
    } else {
        seq![c]
    }
}

pub open spec fn esc_body(s: Seq<char>) -> Seq<char>
    decreases s.len(),
{
    if s.len() == 0 {
        Seq::empty()
    } else {
        esc_body(s.drop_last()) + esc_char(s.last())
    }
}

/// POSIX single-quoting: the value wrapped in single quotes, each embedded
/// single quote replaced by `'\''`.
pub open spec fn spec_shell_escape(s: Seq<char>) -> Seq<char> {
    seq!['\''] + esc_body(s) + seq!['\'']
}

/// Quotes a value for `/bin/sh -c`.
pub fn shell_escape(value: &str) -> (r: String)
    ensures
        r@ == spec_shell_escape(value@),
{
    let n: usize = value.unicode_len();
    let mut out: String = "'".to_owned();
    proof {
        reveal_strlit("'");
        assert(out@ =~= seq!['\''] + esc_body(value@.take(0)));
    }
    let mut i: usize = 0;
    while i < n
        invariant
            n == value@.len(),
            i <= n,
            out@ == seq!['\''] + esc_body(value@.take(i as int)),
        decreases n - i,
    {
        let c: char = value.get_char(i);
        proof {
            assert(value@.take(i + 1).drop_last() =~= value@.take(i as int));
            assert(value@.take(i + 1).last() == value@[i as int]);
        }
        if c == '\'' {
            out.append("'\\''");
            proof {
                reveal_strlit("'\\''");
                assert("'\\''"@ =~= esc_char('\''));
                assert(out@ =~= seq!['\''] + esc_body(value@.take(i + 1)));
            }
        } else {
            let piece: &str = value.substring_char(i, i + 1);
            out.append(piece);
            proof {
                assert(piece@ =~= esc_char(value@[i as int]));
                assert(out@ =~= seq!['\''] + esc_body(value@.take(i + 1)));
            }
        }
        i = i + 1;
    }
    proof {
        assert(value@.take(n as int) =~= value@);
    }
    out.append("'");
    proof {
        reveal_strlit("'");
        assert(out@ =~= spec_shell_escape(value@));
    }
    out
}

/// The path whose file system the sampler reports: the trimmed project
/// path, or the root when the project path is blank.
pub fn preferred_disk_path(project_path: &str) -> (r: String)
    ensures
        r@ == if is_blank(project_path@) {
            "/"@
        } else {
            trimmed(project_path@)
        },
{
    if crate::textscan::str_is_blank(project_path) {
        "/".to_owned()
    } else {
        crate::textscan::trim_str(project_path)
    }
}

/// The df invocation for a path, with the path single-quoted.
pub fn df_command(path: &str) -> (r: String)
    ensures
        r@ == "LANG=C df -P "@ + spec_shell_escape(path@),
{
    let mut out: String = "LANG=C df -P ".to_owned();
    let quoted = shell_escape(path);
    out.append(quoted.as_str());
    out
}

/// The byte text "Cpu(s)".
pub open spec fn bytes_cpus() -> Seq<u8> {
    seq![67u8, 112u8, 117u8, 40u8, 115u8, 41u8]
}

/// The byte text "%Cpu(s)".
pub open spec fn bytes_pcpus() -> Seq<u8> {
    seq![37u8, 67u8, 112u8, 117u8, 40u8, 115u8, 41u8]
}

/// The byte text "CPU:".
pub open spec fn bytes_cpu_colon() -> Seq<u8> {
    seq![67u8, 80u8, 85u8, 58u8]
}

/// The byte text "id".
pub open spec fn bytes_id() -> Seq<u8> {
    seq![105u8, 100u8]
}

/// The byte text "idle".
pub open spec fn bytes_idle() -> Seq<u8> {
    seq![105u8, 100u8, 108u8, 101u8]
}

/// The byte text "Mem:".
pub open spec fn bytes_mem() -> Seq<u8> {
    seq![77u8, 101u8, 109u8, 58u8]
}

/// A line the CPU parser recognizes: classic top, or busybox top.
pub open spec fn is_cpu_line(l: Seq<u8>) -> bool {
    contains_b(l, bytes_cpus()) || contains_b(l, bytes_pcpus()) || contains_b(
        l,
        bytes_cpu_colon(),
    )
}

/// Index of the first CPU line, or the length.
pub open spec fn cpu_line_idx(ls: Seq<Seq<u8>>) -> int
    decreases ls.len(),
{
    if ls.len() == 0 {
        0
    } else if is_cpu_line(ls[0]) {
        0
    } else {
        1 + cpu_line_idx(ls.drop_first())
    }
}

pub proof fn lemma_cpu_line_idx_at(ls: Seq<Seq<u8>>, k: int)
    requires
        0 <= k <= ls.len(),
        forall|j: int| 0 <= j < k ==> !is_cpu_line(#[trigger] ls[j]),
        k < ls.len() ==> is_cpu_line(ls[k]),
    ensures
        cpu_line_idx(ls) == k,
    decreases ls.len(),
{
    if k > 0 {
        lemma_cpu_line_idx_at(ls.drop_first(), k - 1);
    }
}

/// The trailing percent signs stripped from a token.
pub open spec fn strip_pct(t: Seq<u8>) -> Seq<u8>
    decreases t.len(),
{
    if t.len() > 0 && t.last() == 37 {
        strip_pct(t.drop_last())
    } else {
        t
    }
}

/// A comma-separated split; empty pieces are kept.
pub open spec fn spec_split_comma(s: Seq<u8>) -> Seq<Seq<u8>>
    decreases s.len(),
    when s.len() >= 0
    via spec_split_comma_decreases
{
    if first_byte(s, 44) < s.len() {
        seq![s.take(first_byte(s, 44))] + spec_split_comma(s.skip(first_byte(s, 44) + 1))
    } else {
        seq![s]
    }
}

#[via_fn]
proof fn spec_split_comma_decreases(s: Seq<u8>) {
    lemma_first_byte_bounds(s, 44);
}

/// Splits at commas, keeping empty pieces.
pub fn split_comma(s: &[u8]) -> (r: Vec<Vec<u8>>)
    ensures
        chunks_view(r@) == spec_split_comma(s@),
{
    let n: usize = s.len();
    let mut out: Vec<Vec<u8>> = Vec::new();
    let mut i: usize = 0;
    let mut done: bool = false;
    proof {
        assert(s@.skip(0) =~= s@);
        assert(chunks_view(out@) + spec_split_comma(s@) =~= spec_split_comma(s@));
    }
    while !done
        invariant
            n == s@.len(),
            i <= n,
            !done ==> chunks_view(out@) + spec_split_comma(s@.skip(i as int)) == spec_split_comma(
                s@,
            ),
            done ==> chunks_view(out@) == spec_split_comma(s@),
        decreases n - i + (if done { 0int } else { 1int }),
    {
        let mut j: usize = i;
        while j < n && s[j] != 44
            invariant
                n == s@.len(),
                i <= j <= n,
                forall|m: int| i <= m < j ==> (#[trigger] s@[m]) != 44,
            decreases n - j,
        {
            j = j + 1;
        }
        let seg: Vec<u8> = slice_to_vec(&s[i..j]);
        proof {
            let rest = s@.skip(i as int);
            assert(forall|m: int| 0 <= m < j - i ==> rest[m] == s@[i + m]);
            lemma_first_byte_at(rest, 44, j - i);
            assert(rest.take(j - i) =~= s@.subrange(i as int, j as int));
            assert(seg@ == s@.subrange(i as int, j as int));
            if j < n {
                assert(rest.skip(j - i + 1) =~= s@.skip(j + 1));
                assert(spec_split_comma(rest) == seq![s@.subrange(i as int, j as int)]
                    + spec_split_comma(s@.skip(j + 1)));
            } else {
                assert(spec_split_comma(rest) =~= seq![s@.subrange(i as int, j as int)]);
            }
            assert(chunks_view(out@.push(seg)) =~= chunks_view(out@).push(seg@));
        }
        out.push(seg);
        if j < n {
            i = j + 1;
        } else {
            i = n;
            done = true;
        }
    }
    out
}

/// A segment the classic parser takes the idle value from: its second
/// token reads "id" and its first parses as a number.
pub open spec fn is_idle_seg(seg: Seq<u8>) -> bool {
    &&& spec_tokens(seg).len() >= 2
    &&& spec_tokens(seg)[1] == bytes_id()
    &&& spec_parse_centi(spec_tokens(seg)[0]) is Some
}

/// Index of the first idle segment, or the length.
pub open spec fn idle_seg_idx(segs: Seq<Seq<u8>>) -> int
    decreases segs.len(),
{
    if segs.len() == 0 {
        0
    } else if is_idle_seg(segs[0]) {
        0
    } else {
        1 + idle_seg_idx(segs.drop_first())
    }
}

pub proof fn lemma_idle_seg_idx_at(segs: Seq<Seq<u8>>, k: int)
    requires
        0 <= k <= segs.len(),
        forall|j: int| 0 <= j < k ==> !is_idle_seg(#[trigger] segs[j]),
        k < segs.len() ==> is_idle_seg(segs[k]),
    ensures
        idle_seg_idx(segs) == k,
    decreases segs.len(),
{
    if k > 0 {
        lemma_idle_seg_idx_at(segs.drop_first(), k - 1);
    }
}

/// A token pair the busybox parser takes the idle value from: a percent
/// token followed by the label "idle".
pub open spec fn is_idle_pair(a: Seq<u8>, b: Seq<u8>) -> bool {
    &&& a.len() > 0
    &&& a.last() == 37
    &&& b == bytes_idle()
    &&& spec_parse_centi(strip_pct(a)) is Some
}

/// Index of the first idle pair, or the length when none exists.
pub open spec fn idle_pair_idx(ts: Seq<Seq<u8>>) -> int
    decreases ts.len(),
{
    if ts.len() < 2 {
        ts.len() as int
    } else if is_idle_pair(ts[0], ts[1]) {
        0
    } else {
        1 + idle_pair_idx(ts.drop_first())
    }
}

pub proof fn lemma_idle_pair_idx_at(ts: Seq<Seq<u8>>, k: int)
    requires
        0 <= k,
        k + 1 <= ts.len(),
        forall|j: int| 0 <= j < k ==> !is_idle_pair(#[trigger] ts[j], ts[j + 1]),
        k + 1 < ts.len() ==> is_idle_pair(ts[k], ts[k + 1]),
        k + 1 == ts.len() ==> !is_idle_pair(ts[k], ts[k]) || true,
    ensures
        k + 1 < ts.len() ==> idle_pair_idx(ts) == k,
        k + 1 == ts.len() ==> idle_pair_idx(ts) >= ts.len() - 1,
    decreases ts.len(),
{
    if k > 0 {
        assert forall|j: int| 0 <= j < k - 1 implies !is_idle_pair(
            #[trigger] ts.drop_first()[j],
            ts.drop_first()[j + 1],
        ) by {
            assert(ts.drop_first()[j] == ts[j + 1] && ts.drop_first()[j + 1] == ts[j + 2]);
            assert(!is_idle_pair(ts[j + 1], ts[j + 1 + 1]));
        }
        lemma_idle_pair_idx_at(ts.drop_first(), k - 1);
    }
}

/// A line with at least one token.
pub open spec fn has_token(l: Seq<u8>) -> bool {
    exists|i: int| 0 <= i < l.len() && !is_ws_b(#[trigger] l[i])
}

/// Index of the first line with a token, or the length.
pub open spec fn data_line_idx(ls: Seq<Seq<u8>>) -> int
    decreases ls.len(),
{
    if ls.len() == 0 {
        0
    } else if has_token(ls[0]) {
        0
    } else {
        1 + data_line_idx(ls.drop_first())
    }
}

pub proof fn lemma_data_line_idx_at(ls: Seq<Seq<u8>>, k: int)
    requires
        0 <= k <= ls.len(),
        forall|j: int| 0 <= j < k ==> !has_token(#[trigger] ls[j]),
        k < ls.len() ==> has_token(ls[k]),
    ensures
        data_line_idx(ls) == k,
    decreases ls.len(),
{
    if k > 0 {
        lemma_data_line_idx_at(ls.drop_first(), k - 1);
    }
}

/// A percent token: non-empty, ending in the percent sign.
pub open spec fn ends_pct(t: Seq<u8>) -> bool {
    t.len() > 0 && t.last() == 37
}

/// Index of the first percent token, or the length.
pub open spec fn pct_tok_idx(ts: Seq<Seq<u8>>) -> int
    decreases ts.len(),
{
    if ts.len() == 0 {
        0
    } else if ends_pct(ts[0]) {
        0
    } else {
        1 + pct_tok_idx(ts.drop_first())
    }
}

pub proof fn lemma_pct_tok_idx_at(ts: Seq<Seq<u8>>, k: int)
    requires
        0 <= k <= ts.len(),
        forall|j: int| 0 <= j < k ==> !ends_pct(#[trigger] ts[j]),
        k < ts.len() ==> ends_pct(ts[k]),
    ensures
        pct_tok_idx(ts) == k,
    decreases ts.len(),
{
    if k > 0 {
        lemma_pct_tok_idx_at(ts.drop_first(), k - 1);
    }
}

/// `p` is a prefix of `a`.
pub open spec fn starts_with_b(a: Seq<u8>, p: Seq<u8>) -> bool {
    p.len() <= a.len() && a.take(p.len() as int) == p
}

fn bytes_starts_with(a: &[u8], p: &[u8]) -> (r: bool)
    ensures
        r == starts_with_b(a@, p@),
{
    let plen: usize = p.len();
    if plen > a.len() {
        return false;
    }
    let head: &[u8] = &a[0..plen];
    proof {
        assert(head@ =~= a@.take(plen as int));
    }
    bytes_eq(head, p)
}

/// A line whose first token starts with "Mem:".
pub open spec fn is_mem_line(l: Seq<u8>) -> bool {
    spec_tokens(l).len() > 0 && starts_with_b(spec_tokens(l)[0], bytes_mem())
}

/// Index of the first memory line, or the length.
pub open spec fn mem_line_idx(ls: Seq<Seq<u8>>) -> int
    decreases ls.len(),
{
    if ls.len() == 0 {
        0
    } else if is_mem_line(ls[0]) {
        0
    } else {
        1 + mem_line_idx(ls.drop_first())
    }
}

pub proof fn lemma_mem_line_idx_at(ls: Seq<Seq<u8>>, k: int)
    requires
        0 <= k <= ls.len(),
        forall|j: int| 0 <= j < k ==> !is_mem_line(#[trigger] ls[j]),
        k < ls.len() ==> is_mem_line(ls[k]),
    ensures
        mem_line_idx(ls) == k,
    decreases ls.len(),
{
    if k > 0 {
        lemma_mem_line_idx_at(ls.drop_first(), k - 1);
    }
}

/// The classic-top idle extraction: the part after the first colon is
/// split at commas, and the first segment whose second token is "id"
/// supplies the idle value.
pub open spec fn spec_cpu_classic(l: Seq<u8>) -> Option<u32> {
    let rest = if first_byte(l, 58) < l.len() {
        l.skip(first_byte(l, 58) + 1)
    } else {
        l
    };
    let segs = spec_split_comma(rest);
    let j = idle_seg_idx(segs);
    if j < segs.len() {
        match spec_parse_centi(spec_tokens(segs[j])[0]) {
            Option::Some(idle) => Option::Some(clamp_centi(10_000 - idle as int)),
            Option::None => Option::None,
        }
    } else {
        Option::None
    }
}

/// The busybox-top idle extraction: the first percent token labelled
/// "idle" supplies the idle value.
pub open spec fn spec_cpu_busybox(l: Seq<u8>) -> Option<u32> {
    let ts = spec_tokens(l);
    let j = idle_pair_idx(ts);
    if j + 1 < ts.len() {
        match spec_parse_centi(strip_pct(ts[j])) {
            Option::Some(idle) => Option::Some(clamp_centi(10_000 - idle as int)),
            Option::None => Option::None,
        }
    } else {
        Option::None
    }
}

/// CPU usage in hundredths of a percent, from `top -bn1` output: one
/// hundred percent minus the idle share, clamped into range. Absent when
/// no recognizable line or value exists.
pub open spec fn spec_cpu_centi(out: Seq<u8>) -> Option<u32> {
    let ls = spec_lines(out);
    let i = cpu_line_idx(ls);
    if i < ls.len() {
        if contains_b(ls[i], bytes_cpus()) || contains_b(ls[i], bytes_pcpus()) {
            spec_cpu_classic(ls[i])
        } else {
            spec_cpu_busybox(ls[i])
        }
    } else {
        Option::None
    }
}

/// RAM usage in hundredths of a percent, from `free -m` output: used over
/// total from the "Mem:" row, clamped into range.
pub open spec fn spec_ram_centi(out: Seq<u8>) -> Option<u32> {
    let ls = spec_lines(out);
    let i = mem_line_idx(ls);
    if i < ls.len() {
        let ts = spec_tokens(ls[i]);
        if ts.len() < 3 {
            Option::None
        } else {
            match (spec_parse_centi(ts[1]), spec_parse_centi(ts[2])) {
                (Option::Some(total), Option::Some(used)) => if total > 0 {
                    Option::Some(clamp_centi((used as int) * 10_000 / (total as int)))
                } else {
                    Option::None
                },
                _ => Option::None,
            }
        }
    } else {
        Option::None
    }
}

/// Disk usage in hundredths of a percent, from `df -P` output: the first
/// percent field of the first data line, clamped into range.
pub open spec fn spec_disk_centi(out: Seq<u8>) -> Option<u32> {
    let ls = spec_lines(out);
    if ls.len() == 0 {
        Option::None
    } else {
        let data = ls.drop_first();
        let di = data_line_idx(data);
        if di < data.len() {
            let ts = spec_tokens(data[di]);
            let pi = pct_tok_idx(ts);
            if pi < ts.len() {
                match spec_parse_centi(strip_pct(ts[pi])) {
                    Option::Some(v) => Option::Some(clamp_centi(v as int)),
                    Option::None => Option::None,
                }
            } else {
                Option::None
            }
        } else {
            Option::None
        }
    }
}

fn needle_cpus() -> (r: Vec<u8>)
    ensures
        r@ == bytes_cpus(),
{
    let v: Vec<u8> = vec![67u8, 112u8, 117u8, 40u8, 115u8, 41u8];
    proof {
        assert(v@ =~= bytes_cpus());
    }
    v
}

fn needle_pcpus() -> (r: Vec<u8>)
    ensures
        r@ == bytes_pcpus(),
{
    let v: Vec<u8> = vec![37u8, 67u8, 112u8, 117u8, 40u8, 115u8, 41u8];
    proof {
        assert(v@ =~= bytes_pcpus());
    }
    v
}

fn needle_cpu_colon() -> (r: Vec<u8>)
    ensures
        r@ == bytes_cpu_colon(),
{
    let v: Vec<u8> = vec![67u8, 80u8, 85u8, 58u8];
    proof {
        assert(v@ =~= bytes_cpu_colon());
    }
    v
}

fn needle_id() -> (r: Vec<u8>)
    ensures
        r@ == bytes_id(),
{
    let v: Vec<u8> = vec![105u8, 100u8];
    proof {
        assert(v@ =~= bytes_id());
    }
    v
}

fn needle_idle() -> (r: Vec<u8>)
    ensures
        r@ == bytes_idle(),
{
    let v: Vec<u8> = vec![105u8, 100u8, 108u8, 101u8];
    proof {
        assert(v@ =~= bytes_idle());
    }
    v
}

fn needle_mem() -> (r: Vec<u8>)
    ensures
        r@ == bytes_mem(),
{
    let v: Vec<u8> = vec![77u8, 101u8, 109u8, 58u8];
    proof {
        assert(v@ =~= bytes_mem());
    }
    v
}

fn is_cpu_line_exec(l: &[u8]) -> (r: bool)
    ensures
        r == is_cpu_line(l@),
{
    let c1 = needle_cpus();
    let c2 = needle_pcpus();
    let c3 = needle_cpu_colon();
    bytes_contains(l, c1.as_slice()) || bytes_contains(l, c2.as_slice()) || bytes_contains(
        l,
        c3.as_slice(),
    )
}

/// Strips the trailing percent signs from a token.
fn strip_pct_exec(t: &[u8]) -> (r: &[u8])
    ensures
        r@ == strip_pct(t@),
{
    let mut e: usize = t.len();
    proof {
        assert(t@.take(e as int) =~= t@);
    }
    while e > 0 && t[e - 1] == 37
        invariant
            e <= t@.len(),
            strip_pct(t@.take(e as int)) == strip_pct(t@),
        decreases e,
    {
        proof {
            assert(t@.take(e as int).drop_last() =~= t@.take(e - 1));
        }
        e = e - 1;
    }
    let r: &[u8] = &t[0..e];
    proof {
        assert(r@ =~= t@.take(e as int));
        if e > 0 {
            assert(strip_pct(t@.take(e as int)) == t@.take(e as int));
        } else {
            assert(t@.take(0) =~= Seq::<u8>::empty());
        }
    }
    r
}

/// Parses CPU usage (hundredths of a percent) from `top -bn1` output.
pub fn parse_cpu_percent_from_top(output: &str) -> (r: Option<u32>)
    ensures
        r == spec_cpu_centi(output.spec_bytes()),
{
    let bytes: &[u8] = output.as_bytes();
    let lines = split_lines(bytes);
    let nl: usize = lines.len();
    let mut li: usize = 0;
    let mut found: bool = false;
    while li < nl && !found
        invariant
            nl == lines@.len(),
            chunks_view(lines@) == spec_lines(bytes@),
            li <= nl,
            forall|j: int| 0 <= j < li ==> !is_cpu_line(#[trigger] chunks_view(lines@)[j]),
            found ==> li < nl && is_cpu_line(chunks_view(lines@)[li as int]),
        decreases nl - li + (if found { 0int } else { 1int }),
    {
        if is_cpu_line_exec(lines[li].as_slice()) {
            found = true;
        } else {
            li = li + 1;
        }
    }
    proof {
        lemma_cpu_line_idx_at(chunks_view(lines@), li as int);
    }
    if !found {
        return Option::None;
    }
    let line: &[u8] = lines[li].as_slice();
    let c1 = needle_cpus();
    let c2 = needle_pcpus();
    if bytes_contains(line, c1.as_slice()) || bytes_contains(line, c2.as_slice()) {
        // Classic top: take the part after the colon, split at commas,
        // and find the segment labelled "id".
        let n: usize = line.len();
        let mut ci: usize = 0;
        while ci < n && line[ci] != 58
            invariant
                n == line@.len(),
                ci <= n,
                forall|m: int| 0 <= m < ci ==> (#[trigger] line@[m]) != 58,
            decreases n - ci,
        {
            ci = ci + 1;
        }
        proof {
            lemma_first_byte_at(line@, 58, ci as int);
        }
        let rest: &[u8] = if ci < n {
            &line[ci + 1..n]
        } else {
            line
        };
        proof {
            if ci < n {
                assert(rest@ =~= line@.skip(ci + 1));
            }
        }
        let segs = split_comma(rest);
        let ns: usize = segs.len();
        let mut si: usize = 0;
        let mut sfound: bool = false;
        let mut idle: u64 = 0;
        while si < ns && !sfound
            invariant
                ns == segs@.len(),
                chunks_view(segs@) == spec_split_comma(rest@),
                si <= ns,
                forall|j: int| 0 <= j < si ==> !is_idle_seg(#[trigger] chunks_view(segs@)[j]),
                sfound ==> si < ns && is_idle_seg(chunks_view(segs@)[si as int])
                    && Option::Some(idle) == spec_parse_centi(
                    spec_tokens(chunks_view(segs@)[si as int])[0],
                ),
            decreases ns - si + (if sfound { 0int } else { 1int }),
        {
            let toks = split_ws(segs[si].as_slice());
            let id = needle_id();
            if toks.len() >= 2 && bytes_eq(toks[1].as_slice(), id.as_slice()) {
                match parse_centi(toks[0].as_slice()) {
                    Option::Some(v) => {
                        idle = v;
                        sfound = true;
                        proof {
                            assert(chunks_view(toks@)[0] == toks@[0]@);
                            assert(chunks_view(toks@)[1] == toks@[1]@);
                        }
                    },
                    Option::None => {
                        si = si + 1;
                    },
                }
            } else {
                proof {
                    if toks.len() >= 2 {
                        assert(chunks_view(toks@)[1] == toks@[1]@);
                    }
                }
                si = si + 1;
            }
        }
        proof {
            lemma_idle_seg_idx_at(chunks_view(segs@), si as int);
        }
        if !sfound {
            return Option::None;
        }
        if idle >= 10_000 {
            Option::Some(0)
        } else {
            Option::Some((10_000 - idle) as u32)
        }
    } else {
        // Busybox top: find the percent token labelled "idle".
        let toks = split_ws(line);
        let nt: usize = toks.len();
        if nt < 1 {
            proof {
                assert(idle_pair_idx(chunks_view(toks@)) == 0);
            }
            return Option::None;
        }
        let mut ti: usize = 0;
        let mut tfound: bool = false;
        let mut idle: u64 = 0;
        while ti + 1 < nt && !tfound
            invariant
                nt == toks@.len(),
                nt >= 1,
                chunks_view(toks@) == spec_tokens(line@),
                ti + 1 <= nt,
                forall|j: int| 0 <= j < ti ==> !is_idle_pair(
                    #[trigger] chunks_view(toks@)[j],
                    chunks_view(toks@)[j + 1],
                ),
                tfound ==> ti + 1 < nt && is_idle_pair(
                    chunks_view(toks@)[ti as int],
                    chunks_view(toks@)[ti + 1],
                ) && Option::Some(idle) == spec_parse_centi(
                    strip_pct(chunks_view(toks@)[ti as int]),
                ),
            decreases nt - ti + (if tfound { 0int } else { 1int }),
        {
            let a: &[u8] = toks[ti].as_slice();
            let idl = needle_idle();
            let mut pair: bool = false;
            if a.len() > 0 && a[a.len() - 1] == 37 && bytes_eq(
                toks[ti + 1].as_slice(),
                idl.as_slice(),
            ) {
                let stripped = strip_pct_exec(a);
                match parse_centi(stripped) {
                    Option::Some(v) => {
                        idle = v;
                        tfound = true;
                        pair = true;
                    },
                    Option::None => {},
                }
            }
            proof {
                assert(chunks_view(toks@)[ti as int] == toks@[ti as int]@);
                assert(chunks_view(toks@)[ti + 1] == toks@[ti + 1]@);
            }
            if !pair {
                ti = ti + 1;
            }
        }
        proof {
            lemma_idle_pair_idx_at(chunks_view(toks@), ti as int);
        }
        if !tfound {
            return Option::None;
        }
        if idle >= 10_000 {
            Option::Some(0)
        } else {
            Option::Some((10_000 - idle) as u32)
        }
    }
}

/// Parses RAM usage (hundredths of a percent) from `free -m` output.
pub fn parse_ram_percent_from_free(output: &str) -> (r: Option<u32>)
    ensures
        r == spec_ram_centi(output.spec_bytes()),
{
    let bytes: &[u8] = output.as_bytes();
    let lines = split_lines(bytes);
    let nl: usize = lines.len();
    let mut li: usize = 0;
    let mut found: bool = false;
    while li < nl && !found
        invariant
            nl == lines@.len(),
            chunks_view(lines@) == spec_lines(bytes@),
            li <= nl,
            forall|j: int| 0 <= j < li ==> !is_mem_line(#[trigger] chunks_view(lines@)[j]),
            found ==> li < nl && is_mem_line(chunks_view(lines@)[li as int]),
        decreases nl - li + (if found { 0int } else { 1int }),
    {
        let toks = split_ws(lines[li].as_slice());
        let mem = needle_mem();
        if toks.len() > 0 && bytes_starts_with(toks[0].as_slice(), mem.as_slice()) {
            found = true;
            proof {
                assert(chunks_view(toks@)[0] == toks@[0]@);
            }
        } else {
            proof {
                if toks.len() > 0 {
                    assert(chunks_view(toks@)[0] == toks@[0]@);
                }
            }
            li = li + 1;
        }
    }
    proof {
        lemma_mem_line_idx_at(chunks_view(lines@), li as int);
    }
    if !found {
        return Option::None;
    }
    let toks = split_ws(lines[li].as_slice());
    if toks.len() < 3 {
        return Option::None;
    }
    proof {
        assert(chunks_view(toks@)[1] == toks@[1]@);
        assert(chunks_view(toks@)[2] == toks@[2]@);
    }
    let total: u64 = match parse_centi(toks[1].as_slice()) {
        Option::Some(v) => v,
        Option::None => {
            return Option::None;
        },
    };
    let used: u64 = match parse_centi(toks[2].as_slice()) {
        Option::Some(v) => v,
        Option::None => {
            return Option::None;
        },
    };
    if total == 0 {
        return Option::None;
    }
    let ratio: u64 = used * 10_000 / total;
    if ratio > 10_000 {
        Option::Some(10_000)
    } else {
        Option::Some(ratio as u32)
    }
}

/// Parses disk usage (hundredths of a percent) from `df -P` output.
pub fn parse_disk_percent_from_df(output: &str) -> (r: Option<u32>)
    ensures
        r == spec_disk_centi(output.spec_bytes()),
{
    let bytes: &[u8] = output.as_bytes();
    let lines = split_lines(bytes);
    let nl: usize = lines.len();
    if nl == 0 {
        return Option::None;
    }
    let ghost data = chunks_view(lines@).drop_first();
    let mut li: usize = 1;
    let mut found: bool = false;
    while li < nl && !found
        invariant
            nl == lines@.len(),
            nl >= 1,
            chunks_view(lines@) == spec_lines(bytes@),
            data == chunks_view(lines@).drop_first(),
            1 <= li <= nl,
            forall|j: int| 0 <= j < li - 1 ==> !has_token(#[trigger] data[j]),
            found ==> li < nl && has_token(data[li - 1]),
        decreases nl - li + (if found { 0int } else { 1int }),
    {
        let l: &[u8] = lines[li].as_slice();
        let n: usize = l.len();
        let mut m: usize = 0;
        let mut nonws: bool = false;
        while m < n && !nonws
            invariant
                n == l@.len(),
                m <= n,
                forall|q: int| 0 <= q < m ==> is_ws_b(#[trigger] l@[q]),
                nonws ==> m < n && !is_ws_b(l@[m as int]),
            decreases n - m + (if nonws { 0int } else { 1int }),
        {
            if !is_ws_byte(l[m]) {
                nonws = true;
            } else {
                m = m + 1;
            }
        }
        proof {
            assert(data[li - 1] == chunks_view(lines@)[li as int]);
        }
        if nonws {
            found = true;
        } else {
            proof {
                assert(forall|q: int| 0 <= q < l@.len() ==> is_ws_b(#[trigger] l@[q]));
                assert(!has_token(data[li - 1]));
            }
            li = li + 1;
        }
    }
    proof {
        lemma_data_line_idx_at(data, li - 1);
    }
    if !found {
        return Option::None;
    }
    let toks = split_ws(lines[li].as_slice());
    let nt: usize = toks.len();
    let mut pi: usize = 0;
    let mut pfound: bool = false;
    while pi < nt && !pfound
        invariant
            nt == toks@.len(),
            chunks_view(toks@) == spec_tokens(chunks_view(lines@)[li as int]),
            pi <= nt,
            forall|j: int| 0 <= j < pi ==> !ends_pct(#[trigger] chunks_view(toks@)[j]),
            pfound ==> pi < nt && ends_pct(chunks_view(toks@)[pi as int]),
        decreases nt - pi + (if pfound { 0int } else { 1int }),
    {
        let t: &[u8] = toks[pi].as_slice();
        proof {
            assert(chunks_view(toks@)[pi as int] == toks@[pi as int]@);
        }
        if t.len() > 0 && t[t.len() - 1] == 37 {
            pfound = true;
        } else {
            pi = pi + 1;
        }
    }
    proof {
        lemma_pct_tok_idx_at(chunks_view(toks@), pi as int);
    }
    if !pfound {
        return Option::None;
    }
    let stripped = strip_pct_exec(toks[pi].as_slice());
    match parse_centi(stripped) {
        Option::Some(v) => {
            if v > 10_000 {
                Option::Some(10_000)
            } else {
                Option::Some(v as u32)
            }
        },
        Option::None => Option::None,
    }
}

/// Assembles one resource snapshot from the three captured outputs. A
/// missing or unparseable output leaves its field absent; the snapshot is
/// produced regardless.
pub fn snapshot_from_outputs(
    cpu_output: Option<&str>,
    free_output: Option<&str>,
    df_output: Option<&str>,
    disk_path: String,
    ts_epoch: u64,
) -> (r: ResourceSnapshot)
    ensures
        r.cpu_centi_percent == match cpu_output {
            Option::Some(o) => spec_cpu_centi(o.spec_bytes()),
            Option::None => Option::<u32>::None,
        },
        r.ram_centi_percent == match free_output {
            Option::Some(o) => spec_ram_centi(o.spec_bytes()),
            Option::None => Option::<u32>::None,
        },
        r.disk_centi_percent == match df_output {
            Option::Some(o) => spec_disk_centi(o.spec_bytes()),
            Option::None => Option::<u32>::None,
        },
        r.ts_epoch == ts_epoch,
        r.disk_path == disk_path,
{
    let cpu_centi_percent = match cpu_output {
        Option::Some(o) => parse_cpu_percent_from_top(o),
        Option::None => Option::None,
    };
    let ram_centi_percent = match free_output {
        Option::Some(o) => parse_ram_percent_from_free(o),
        Option::None => Option::None,
    };
    let disk_centi_percent = match df_output {
        Option::Some(o) => parse_disk_percent_from_df(o),
        Option::None => Option::None,
    };
    ResourceSnapshot { cpu_centi_percent, ram_centi_percent, disk_centi_percent, ts_epoch, disk_path }
}

} // verus!
