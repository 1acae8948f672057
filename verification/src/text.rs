//! Character and string helpers shared across the library.

use vstd::prelude::*;
use crate::date::{is_digit, digit_val, digit_char, exec_is_digit, exec_digit_val};

verus! {

/// Relies on std's `String::push`: it appends exactly the given
/// character to the end of the string.
pub assume_specification[ String::push ](s: &mut String, c: char)
    ensures
        final(s)@ == old(s)@.push(c),
;

/// Does the needle occur in the haystack starting at position `j`?
pub open spec fn match_at(hay: Seq<char>, needle: Seq<char>, j: int) -> bool {
    forall|k: int| 0 <= k < needle.len() ==> hay[j + k] == #[trigger] needle[k]
}

/// Substring containment over character sequences.
pub open spec fn spec_contains(hay: Seq<char>, needle: Seq<char>) -> bool {
    exists|j: int| 0 <= j <= hay.len() - needle.len() && match_at(hay, needle, j)
}

/// Case-sensitive substring test, as the search and the error hints
/// use it.
pub fn contains_str(hay: &str, needle: &str) -> (b: bool)
    ensures
        b == spec_contains(hay@, needle@),
{
    let hl = hay.unicode_len();
    let nl = needle.unicode_len();
    if nl > hl {
        return false;
    }
    let mut j: usize = 0;
    while j <= hl - nl
        invariant
            nl <= hl,
            hl == hay@.len(),
            nl == needle@.len(),
            j <= hl - nl + 1,
            forall|j2: int| 0 <= j2 < j ==> !match_at(hay@, needle@, j2),
        decreases hl - nl + 1 - j,
    {
        let mut k: usize = 0;
        let mut hit = true;
        while k < nl && hit
            invariant
                nl <= hl,
                hl == hay@.len(),
                nl == needle@.len(),
                j <= hl - nl,
                k <= nl,
                hit ==> forall|k2: int| 0 <= k2 < k ==> hay@[j + k2] == #[trigger] needle@[k2],
                !hit ==> !match_at(hay@, needle@, j as int),
            decreases nl - k + (if hit { 1int } else { 0int }),
        {
            if hay.get_char(j + k) != needle.get_char(k) {
                hit = false;
            } else {
                k = k + 1;
            }
        }
        if hit {
            proof {
                assert(match_at(hay@, needle@, j as int));
            }
            return true;
        }
        j = j + 1;
    }
    false
}

/// Character-for-character string equality.
pub fn str_eq(a: &str, b: &str) -> (r: bool)
    ensures
        r == (a@ == b@),
{
    let al = a.unicode_len();
    let bl = b.unicode_len();
    if al != bl {
        return false;
    }
    let mut i: usize = 0;
    while i < al
        invariant
            al == a@.len(),
            al == b@.len(),
            i <= al,
            forall|k: int| 0 <= k < i ==> a@[k] == b@[k],
        decreases al - i,
    {
        if a.get_char(i) != b.get_char(i) {
            return false;
        }
        i = i + 1;
    }
    proof {
        assert(a@ =~= b@);
    }
    true
}

/// ASCII letters fold to lower case; every other character stays.
pub open spec fn lower_char(c: char) -> char {
    if 65 <= c as int <= 90 {
        ((c as int + 32) as u8) as char
    } else {
        c
    }
}

pub open spec fn spec_lower(s: Seq<char>) -> Seq<char> {
    s.map_values(|c: char| lower_char(c))
}

/// Folds the ASCII letters of a string to lower case, as the error
/// hints do before they look for a pattern.
pub fn to_ascii_lower(s: &str) -> (r: String)
    ensures
        r@ == spec_lower(s@),
{
    let n = s.unicode_len();
    let mut out = String::new();
    let mut i: usize = 0;
    while i < n
        invariant
            n == s@.len(),
            i <= n,
            out@.len() == i,
            forall|k: int| 0 <= k < i ==> out@[k] == lower_char(s@[k]),
        decreases n - i,
    {
        let c = s.get_char(i);
        let v = c as u32;
        if 65 <= v && v <= 90 {
            let lc = ((v + 32) as u8) as char;
            out.push(lc);
        } else {
            out.push(c);
        }
        i = i + 1;
    }
    proof {
        assert(out@ =~= spec_lower(s@));
    }
    out
}

/// The blank characters that trimming removes.
pub open spec fn is_blank(c: char) -> bool {
    c == ' ' || c == '\t'
}

pub open spec fn trim_front(s: Seq<char>) -> Seq<char>
    decreases s.len(),
{
    if s.len() > 0 && is_blank(s[0]) {
        trim_front(s.drop_first())
    } else {
        s
    }
}

pub open spec fn trim_back(s: Seq<char>) -> Seq<char>
    decreases s.len(),
{
    if s.len() > 0 && is_blank(s.last()) {
        trim_back(s.drop_last())
    } else {
        s
    }
}

/// A string with its leading and trailing blanks removed.
pub open spec fn spec_trim(s: Seq<char>) -> Seq<char> {
    trim_back(trim_front(s))
}

fn blank_at(s: &str, i: usize) -> (b: bool)
    requires
        i < s@.len(),
    ensures
        b == is_blank(s@[i as int]),
{
    let c = s.get_char(i);
    c == ' ' || c == '\t'
}

/// Removes leading and trailing blanks.
pub fn trim_str(s: &str) -> (r: String)
    ensures
        r@ == spec_trim(s@),
{
    let n = s.unicode_len();
    proof {
        assert(s@.subrange(0, n as int) =~= s@);
    }
    let mut lo: usize = 0;
    while lo < n && blank_at(s, lo)
        invariant
            n == s@.len(),
            lo <= n,
            trim_front(s@) == trim_front(s@.subrange(lo as int, n as int)),
        decreases n - lo,
    {
        proof {
            assert(s@.subrange(lo as int, n as int).drop_first() =~= s@.subrange(
                lo as int + 1,
                n as int,
            ));
        }
        lo = lo + 1;
    }
    proof {
        assert(trim_front(s@) == s@.subrange(lo as int, n as int));
    }
    let mut hi: usize = n;
    while hi > lo && blank_at(s, hi - 1)
        invariant
            n == s@.len(),
            lo <= hi <= n,
            trim_front(s@) == s@.subrange(lo as int, n as int),
            spec_trim(s@) == trim_back(s@.subrange(lo as int, hi as int)),
        decreases hi,
    {
        proof {
            assert(s@.subrange(lo as int, hi as int).drop_last() =~= s@.subrange(
                lo as int,
                hi as int - 1,
            ));
        }
        hi = hi - 1;
    }
    let piece = s.substring_char(lo, hi);
    proof {
        assert(spec_trim(s@) == s@.subrange(lo as int, hi as int));
    }
    piece.to_owned()
}

/// Splitting at commas, each piece trimmed; `cur` is the piece read so
/// far.
pub open spec fn split_acc(s: Seq<char>, cur: Seq<char>) -> Seq<Seq<char>>
    decreases s.len(),
{
    if s.len() == 0 {
        seq![spec_trim(cur)]
    } else if s[0] == ',' {
        seq![spec_trim(cur)] + split_acc(s.drop_first(), Seq::empty())
    } else {
        split_acc(s.drop_first(), cur.push(s[0]))
    }
}

/// The comma-separated pieces of a string, each trimmed of blanks.
pub open spec fn spec_split_trim(s: Seq<char>) -> Seq<Seq<char>> {
    split_acc(s, Seq::empty())
}

/// Splits a string at commas and trims each piece, as the command line
/// reads tag lists.
pub fn split_trim(s: &str) -> (r: Vec<String>)
    ensures
        r.deep_view() == spec_split_trim(s@),
{
    let n = s.unicode_len();
    let mut r: Vec<String> = Vec::new();
    let mut cur = String::new();
    proof {
        assert(s@.subrange(0, n as int) =~= s@);
        assert(r.deep_view() + split_acc(s@, cur@) =~= split_acc(s@, cur@));
    }
    let mut i: usize = 0;
    while i < n
        invariant
            n == s@.len(),
            i <= n,
            spec_split_trim(s@) == r.deep_view() + split_acc(
                s@.subrange(i as int, n as int),
                cur@,
            ),
        decreases n - i,
    {
        let ghost pre = s@.subrange(i as int, n as int);
        let ghost old_r = r.deep_view();
        let ghost old_cur = cur@;
        proof {
            assert(pre.drop_first() =~= s@.subrange(i as int + 1, n as int));
        }
        let c = s.get_char(i);
        if c == ',' {
            let piece = trim_str(cur.as_str());
            r.push(piece);
            cur = String::new();
            proof {
                assert(r.deep_view() =~= old_r + seq![spec_trim(old_cur)]);
                assert(old_r + (seq![spec_trim(old_cur)] + split_acc(
                    pre.drop_first(),
                    Seq::empty(),
                )) =~= (old_r + seq![spec_trim(old_cur)]) + split_acc(
                    pre.drop_first(),
                    Seq::empty(),
                ));
            }
        } else {
            cur.push(c);
        }
        i = i + 1;
    }
    let piece = trim_str(cur.as_str());
    r.push(piece);
    proof {
        assert(s@.subrange(n as int, n as int) =~= Seq::<char>::empty());
    }
    r
}

/// Are all characters decimal digits?
pub open spec fn all_digits(s: Seq<char>) -> bool {
    forall|k: int| 0 <= k < s.len() ==> is_digit(#[trigger] s[k])
}

/// The number named by a sequence of digit characters.
pub open spec fn digits_val(s: Seq<char>) -> int
    decreases s.len(),
{
    if s.len() == 0 {
        0
    } else {
        digits_val(s.drop_last()) * 10 + digit_val(s.last())
    }
}

pub open spec fn parse_digits_signed(digits: Seq<char>, neg: bool) -> Option<i32> {
    if digits.len() > 0 && all_digits(digits) {
        let v = if neg {
            -digits_val(digits)
        } else {
            digits_val(digits)
        };
        if i32::MIN <= v <= i32::MAX {
            Some(v as i32)
        } else {
            None
        }
    } else {
        None
    }
}

/// Which strings name a 32-bit integer: an optional sign, then one or
/// more digits, and a value in range.
pub open spec fn spec_parse_i32(s: Seq<char>) -> Option<i32> {
    if s.len() > 0 && (s[0] == '-' || s[0] == '+') {
        parse_digits_signed(s.drop_first(), s[0] == '-')
    } else {
        parse_digits_signed(s, false)
    }
}

proof fn lemma_digits_val_nonneg(s: Seq<char>)
    requires
        all_digits(s),
    ensures
        digits_val(s) >= 0,
    decreases s.len(),
{
    if s.len() > 0 {
        assert(all_digits(s.drop_last())) by {
            assert(forall|k: int| 0 <= k < s.len() - 1 ==> is_digit(#[trigger] s.drop_last()[k]));
        }
        lemma_digits_val_nonneg(s.drop_last());
    }
}

/// Reads a 32-bit integer from decimal text, as the command line reads
/// ids and priorities.
pub fn parse_i32(s: &str) -> (r: Option<i32>)
    ensures
        r == spec_parse_i32(s@),
{
    let n = s.unicode_len();
    let mut start: usize = 0;
    let mut neg = false;
    if n > 0 {
        let c0 = s.get_char(0);
        if c0 == '-' {
            neg = true;
            start = 1;
        } else if c0 == '+' {
            start = 1;
        }
    }
    let ghost digits: Seq<char> = s@.subrange(start as int, n as int);
    proof {
        if start == 1 {
            assert(digits =~= s@.drop_first());
        } else {
            assert(digits =~= s@);
        }
    }
    if start >= n {
        return None;
    }
    let mut acc: i64 = 0;
    let mut over = false;
    let mut i: usize = start;
    proof {
        assert(spec_parse_i32(s@) == parse_digits_signed(digits, neg));
    }
    while i < n
        invariant
            n == s@.len(),
            start <= i <= n,
            start < n,
            digits == s@.subrange(start as int, n as int),
            spec_parse_i32(s@) == parse_digits_signed(digits, neg),
            all_digits(s@.subrange(start as int, i as int)),
            !over ==> 0 <= acc <= 2147483648 && acc == digits_val(
                s@.subrange(start as int, i as int),
            ),
            over ==> digits_val(s@.subrange(start as int, i as int)) > 2147483648,
        decreases n - i,
    {
        let ghost processed = s@.subrange(start as int, i as int);
        let c = s.get_char(i);
        if !exec_is_digit(c) {
            proof {
                assert(digits[i - start] == c);
                assert(!all_digits(digits));
            }
            return None;
        }
        proof {
            assert(processed.push(c) =~= s@.subrange(start as int, i as int + 1));
            assert(processed.push(c).drop_last() =~= processed);
        }
        let d = exec_digit_val(c);
        if !over {
            acc = acc * 10 + d as i64;
            if acc > 2147483648 {
                over = true;
            }
        } else {
            proof {
                lemma_digits_val_nonneg(processed);
            }
        }
        i = i + 1;
    }
    proof {
        assert(s@.subrange(start as int, n as int) =~= digits);
    }
    if over {
        return None;
    }
    if neg {
        let v = -acc;
        Some(v as i32)
    } else {
        if acc > 2147483647 {
            None
        } else {
            Some(acc as i32)
        }
    }
}

/// All the tag arguments split at commas and trimmed, in order.
pub open spec fn spec_split_tags(args: Seq<Seq<char>>) -> Seq<Seq<char>>
    decreases args.len(),
{
    if args.len() == 0 {
        Seq::empty()
    } else {
        spec_split_tags(args.drop_last()) + spec_split_trim(args.last())
    }
}

/// Splits every tag argument at commas and trims the pieces, as the
/// add and update commands read their tag lists.
pub fn split_tags(args: &Vec<String>) -> (r: Vec<String>)
    ensures
        r.deep_view() == spec_split_tags(args.deep_view()),
{
    let mut r: Vec<String> = Vec::new();
    let mut i: usize = 0;
    proof {
        assert(args.deep_view().subrange(0, 0) =~= Seq::<Seq<char>>::empty());
        assert(r.deep_view() =~= Seq::<Seq<char>>::empty());
    }
    while i < args.len()
        invariant
            i <= args.len(),
            r.deep_view() == spec_split_tags(args.deep_view().subrange(0, i as int)),
        decreases args.len() - i,
    {
        let ghost old_r = r.deep_view();
        let mut parts = split_trim(args[i].as_str());
        let ghost parts_dv = parts.deep_view();
        r.append(&mut parts);
        proof {
            let adv = args.deep_view();
            assert(r.deep_view() =~= old_r + parts_dv);
            assert(adv.subrange(0, i as int + 1).drop_last() =~= adv.subrange(0, i as int));
            assert(adv.subrange(0, i as int + 1).last() == adv[i as int]);
        }
        i = i + 1;
    }
    proof {
        assert(args.deep_view().subrange(0, args.len() as int) =~= args.deep_view());
    }
    r
}

/// The decimal digits of a non-negative number, most significant
/// first.
pub open spec fn spec_udec(n: int) -> Seq<char>
    decreases n,
{
    if n < 10 {
        seq![digit_char(n)]
    } else {
        spec_udec(n / 10).push(digit_char(n % 10))
    }
}

/// The decimal text of a 32-bit integer, with a leading minus sign
/// when it is negative.
pub open spec fn spec_i32_str(n: int) -> Seq<char> {
    if n < 0 {
        seq!['-'] + spec_udec(-n)
    } else {
        spec_udec(n)
    }
}

fn push_udec(out: &mut String, n: u32)
    ensures
        final(out)@ == old(out)@ + spec_udec(n as int),
    decreases n,
{
    if n < 10 {
        let c = (48 + n as u8) as char;
        out.push(c);
        proof {
            assert(out@ =~= old(out)@ + spec_udec(n as int));
        }
    } else {
        push_udec(out, n / 10);
        let c = (48 + (n % 10) as u8) as char;
        out.push(c);
        proof {
            assert(out@ =~= old(out)@ + spec_udec(n as int));
        }
    }
}

/// Writes a 32-bit integer in decimal, as the task table shows ids and
/// priorities.
pub fn i32_to_string(n: i32) -> (r: String)
    ensures
        r@ == spec_i32_str(n as int),
{
    let mut out = String::new();
    if n >= 0 {
        push_udec(&mut out, n as u32);
        proof {
            assert(out@ =~= spec_i32_str(n as int));
        }
    } else {
        out.push('-');
        let mag = (-(n as i64)) as u32;
        proof {
            assert(mag as int == -(n as int));
        }
        push_udec(&mut out, mag);
        proof {
            assert(out@ =~= spec_i32_str(n as int));
        }
    }
    out
}

/// `true` or `false`, as the task table shows the done column.
pub fn bool_to_string(b: bool) -> (r: String)
    ensures
        b ==> r@ == "true"@,
        !b ==> r@ == "false"@,
{
    if b {
        "true".to_owned()
    } else {
        "false".to_owned()
    }
}

/// Pieces joined with a comma and a space between each two.
pub open spec fn spec_join_cs(parts: Seq<Seq<char>>) -> Seq<char>
    decreases parts.len(),
{
    if parts.len() == 0 {
        Seq::empty()
    } else if parts.len() == 1 {
        parts[0]
    } else {
        spec_join_cs(parts.drop_last()) + seq![',', ' '] + parts.last()
    }
}

/// Joins strings with `", "`, as the task table shows tag lists.
pub fn join_comma_space(v: &Vec<String>) -> (r: String)
    ensures
        r@ == spec_join_cs(v.deep_view()),
{
    let mut out = String::new();
    let mut i: usize = 0;
    while i < v.len()
        invariant
            i <= v.len(),
            out@ == spec_join_cs(v.deep_view().subrange(0, i as int)),
        decreases v.len() - i,
    {
        if i > 0 {
            out.push(',');
            out.push(' ');
        }
        out.append(v[i].as_str());
        proof {
            let dv = v.deep_view();
            assert(dv.subrange(0, i as int + 1).drop_last() =~= dv.subrange(0, i as int));
            assert(dv.subrange(0, i as int + 1).last() == dv[i as int]);
            if i > 0 {
                assert(out@ =~= spec_join_cs(dv.subrange(0, i as int)) + seq![',', ' '] + dv[
                    i as int
                ]);
            } else {
                assert(out@ =~= dv[0]);
            }
        }
        i = i + 1;
    }
    proof {
        assert(v.deep_view().subrange(0, v.len() as int) =~= v.deep_view());
    }
    out
}

} // verus!
