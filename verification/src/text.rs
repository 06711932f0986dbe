//! Verified helpers over character sequences: searching, splitting,
//! trimming and decimal-index parsing, shared by the patch engine and the
//! commit-request model.

use vstd::prelude::*;

verus! {

/// A character with the Unicode `White_Space` property, the set that
/// `str::trim` removes.
pub open spec fn is_space(c: char) -> bool {
    let u = c as u32;
    ||| 0x09 <= u <= 0x0D
    ||| u == 0x20
    ||| u == 0x85
    ||| u == 0xA0
    ||| u == 0x1680
    ||| 0x2000 <= u <= 0x200A
    ||| u == 0x2028
    ||| u == 0x2029
    ||| u == 0x202F
    ||| u == 0x205F
    ||| u == 0x3000
}

/// Decides `is_space` on a concrete character.
pub fn is_space_char(c: char) -> (r: bool)
    ensures
        r == is_space(c),
{
    let u = c as u32;
    (0x09 <= u && u <= 0x0D) || u == 0x20 || u == 0x85 || u == 0xA0 || u == 0x1680 || (0x2000 <= u
        && u <= 0x200A) || u == 0x2028 || u == 0x2029 || u == 0x202F || u == 0x205F || u == 0x3000
}

/// Index of the first occurrence of `c` in `s`, or -1 when absent.
pub open spec fn find_char(s: Seq<char>, c: char) -> int
    decreases s.len(),
{
    if s.len() == 0 {
        -1
    } else if s[0] == c {
        0
    } else {
        let r = find_char(s.drop_first(), c);
        if r < 0 {
            -1
        } else {
            r + 1
        }
    }
}

pub proof fn lemma_find_char(s: Seq<char>, c: char)
    ensures
        find_char(s, c) >= 0 ==> {
            &&& find_char(s, c) < s.len()
            &&& s[find_char(s, c)] == c
            &&& forall|j: int| 0 <= j < find_char(s, c) ==> s[j] != c
        },
        find_char(s, c) < 0 ==> forall|j: int| 0 <= j < s.len() ==> s[j] != c,
    decreases s.len(),
{
    if s.len() > 0 && s[0] != c {
        lemma_find_char(s.drop_first(), c);
        assert(forall|j: int| 1 <= j < s.len() ==> s[j] == s.drop_first()[j - 1]);
    }
}

/// Carries an executable scan's witness back to `find_char`: a first
/// occurrence at `i` fixes the result.
pub proof fn lemma_find_char_witness(s: Seq<char>, c: char, i: int)
    requires
        0 <= i < s.len(),
        s[i] == c,
        forall|j: int| 0 <= j < i ==> s[j] != c,
    ensures
        find_char(s, c) == i,
    decreases s.len(),
{
    if i > 0 {
        lemma_find_char_witness(s.drop_first(), c, i - 1);
    }
}

pub proof fn lemma_find_char_absent(s: Seq<char>, c: char)
    requires
        forall|j: int| 0 <= j < s.len() ==> s[j] != c,
    ensures
        find_char(s, c) == -1,
    decreases s.len(),
{
    if s.len() > 0 {
        lemma_find_char_absent(s.drop_first(), c);
    }
}

/// The character sets that this library trims: plain whitespace for an
/// author name, whitespace with angle brackets for an address.
pub enum TrimKind {
    Space,
    Mail,
}

pub open spec fn trim_pred(k: TrimKind, c: char) -> bool {
    match k {
        TrimKind::Space => is_space(c),
        TrimKind::Mail => is_space(c) || c == '<' || c == '>',
    }
}

/// `s` without its leading characters from set `k`.
pub open spec fn trim_front(s: Seq<char>, k: TrimKind) -> Seq<char>
    decreases s.len(),
{
    if s.len() > 0 && trim_pred(k, s[0]) {
        trim_front(s.drop_first(), k)
    } else {
        s
    }
}

/// `s` without its trailing characters from set `k`.
pub open spec fn trim_back(s: Seq<char>, k: TrimKind) -> Seq<char>
    decreases s.len(),
{
    if s.len() > 0 && trim_pred(k, s.last()) {
        trim_back(s.drop_last(), k)
    } else {
        s
    }
}

/// `s` with the characters of set `k` removed from both ends, the
/// behaviour of `str::trim_matches`.
pub open spec fn trim_both(s: Seq<char>, k: TrimKind) -> Seq<char> {
    trim_back(trim_front(s, k), k)
}

pub proof fn lemma_trim_front_witness(s: Seq<char>, k: TrimKind, i: int)
    requires
        0 <= i <= s.len(),
        forall|j: int| 0 <= j < i ==> trim_pred(k, s[j]),
        i < s.len() ==> !trim_pred(k, s[i]),
    ensures
        trim_front(s, k) == s.skip(i),
    decreases i,
{
    if i == 0 {
        assert(trim_front(s, k) =~= s.skip(0));
    } else {
        assert(forall|j: int| 0 <= j < s.len() - 1 ==> s.drop_first()[j] == s[j + 1]);
        lemma_trim_front_witness(s.drop_first(), k, i - 1);
        assert(s.drop_first().skip(i - 1) =~= s.skip(i));
    }
}

pub proof fn lemma_trim_back_witness(s: Seq<char>, k: TrimKind, i: int)
    requires
        0 <= i <= s.len(),
        forall|j: int| i <= j < s.len() ==> trim_pred(k, s[j]),
        i > 0 ==> !trim_pred(k, s[i - 1]),
    ensures
        trim_back(s, k) == s.take(i),
    decreases s.len() - i,
{
    if i == s.len() as int {
        assert(trim_back(s, k) =~= s.take(i));
    } else {
        assert(forall|j: int| 0 <= j < s.len() - 1 ==> s.drop_last()[j] == s[j]);
        lemma_trim_back_witness(s.drop_last(), k, i);
        assert(s.drop_last().take(i) =~= s.take(i));
    }
}

/// The name half of an author field: everything before the first `<`,
/// trimmed of whitespace, or the whole field when no `<` occurs.
pub open spec fn author_name(a: Seq<char>) -> Seq<char> {
    let i = find_char(a, '<');
    if i < 0 {
        a
    } else {
        trim_both(a.take(i), TrimKind::Space)
    }
}

/// The email half of an author field: everything after the first `<`,
/// stripped of whitespace and angle brackets, or empty when no `<`
/// occurs.
pub open spec fn author_email(a: Seq<char>) -> Seq<char> {
    let i = find_char(a, '<');
    if i < 0 {
        Seq::empty()
    } else {
        trim_both(a.skip(i + 1), TrimKind::Mail)
    }
}

/// Character-for-character string equality.
pub fn str_eq(a: &str, b: &str) -> (r: bool)
    ensures
        r == (a@ == b@),
{
    let n = a.unicode_len();
    if n != b.unicode_len() {
        return false;
    }
    let mut i: usize = 0;
    while i < n
        invariant
            0 <= i <= n,
            n == a@.len(),
            n == b@.len(),
            forall|j: int| 0 <= j < i ==> a@[j] == b@[j],
        decreases n - i,
    {
        if a.get_char(i) != b.get_char(i) {
            return false;
        }
        i = i + 1;
    }
    proof {
        assert(a@ =~= b@);
    }
    true
}

pub assume_specification [ String::push ](s: &mut String, c: char)
    ensures
        final(s)@ == old(s)@.push(c),
;

fn trim_char(k: &TrimKind, c: char) -> (r: bool)
    ensures
        r == trim_pred(*k, c),
{
    match k {
        TrimKind::Space => is_space_char(c),
        TrimKind::Mail => is_space_char(c) || c == '<' || c == '>',
    }
}

/// Removes the characters of set `k` from both ends of `s`, as
/// `str::trim_matches` does.
pub fn trim_matching(s: &str, k: TrimKind) -> (r: String)
    ensures
        r@ == trim_both(s@, k),
{
    let n = s.unicode_len();
    let mut start: usize = 0;
    while start < n && trim_char(&k, s.get_char(start))
        invariant
            0 <= start <= n,
            n == s@.len(),
            forall|j: int| 0 <= j < start ==> trim_pred(k, s@[j]),
        decreases n - start,
    {
        start = start + 1;
    }
    proof {
        lemma_trim_front_witness(s@, k, start as int);
    }
    let ghost head = s@.skip(start as int);
    let mut end: usize = n;
    while end > start && trim_char(&k, s.get_char(end - 1))
        invariant
            start <= end <= n,
            n == s@.len(),
            forall|j: int| end <= j < n ==> trim_pred(k, s@[j]),
        decreases end,
    {
        end = end - 1;
    }
    proof {
        assert(forall|j: int|
            end - start <= j < head.len() ==> head[j] == s@[j + start]);
        lemma_trim_back_witness(head, k, end - start);
        assert(head.take(end - start) =~= s@.subrange(start as int, end as int));
    }
    let r = String::from_str(s.substring_char(start, end));
    r
}

/// The value of a run of decimal digits, most significant first.
pub open spec fn digits_val(s: Seq<char>) -> int
    decreases s.len(),
{
    if s.len() == 0 {
        0
    } else {
        10 * digits_val(s.drop_last()) + (s.last() as int - '0' as int)
    }
}

/// Every character of `s` is an ASCII decimal digit.
pub open spec fn digits_only(s: Seq<char>) -> bool {
    forall|i: int| 0 <= i < s.len() ==> '0' as int <= #[trigger] (s[i] as int) <= '9' as int
}

/// The digit run that `str::parse::<usize>` reads: the whole string, less
/// one optional leading `+`.
pub open spec fn index_digits(s: Seq<char>) -> Seq<char> {
    if s.len() > 0 && s[0] == '+' {
        s.drop_first()
    } else {
        s
    }
}

/// What `str::parse::<usize>` returns on a path segment: the digit value
/// when the segment is nothing but an optional `+` and one or more digits
/// whose value fits a `usize`, and nothing otherwise.
pub open spec fn seg_index(s: Seq<char>) -> Option<int> {
    let d = index_digits(s);
    if d.len() > 0 && digits_only(d) && digits_val(d) <= usize::MAX {
        Some(digits_val(d))
    } else {
        None
    }
}

pub proof fn lemma_digits_val_nonneg(s: Seq<char>)
    requires
        digits_only(s),
    ensures
        digits_val(s) >= 0,
    decreases s.len(),
{
    if s.len() > 0 {
        assert(forall|j: int| 0 <= j < s.len() - 1 ==> s.drop_last()[j] == s[j]);
        lemma_digits_val_nonneg(s.drop_last());
    }
}

/// Appending digits never lowers the value.
pub proof fn lemma_digits_val_prefix(s: Seq<char>, i: int)
    requires
        digits_only(s),
        0 <= i <= s.len(),
    ensures
        digits_val(s) >= digits_val(s.take(i)),
    decreases s.len() - i,
{
    if i < s.len() {
        lemma_digits_val_prefix(s, i + 1);
        assert(s.take(i + 1).drop_last() =~= s.take(i));
        assert(digits_val(s.take(i + 1)) == 10 * digits_val(s.take(i)) + (s[i] as int - '0'
            as int));
        assert(digits_only(s.take(i))) by {
            assert(forall|j: int| 0 <= j < i ==> s.take(i)[j] == s[j]);
        }
        lemma_digits_val_nonneg(s.take(i));
    } else {
        assert(s.take(i) =~= s);
    }
}

/// Reads a path segment as an array index exactly as `str::parse::<usize>`
/// would.
pub fn parse_seg_index(s: &str) -> (r: Option<usize>)
    ensures
        match r {
            Some(i) => seg_index(s@) == Some(i as int),
            None => seg_index(s@) is None,
        },
{
    let n = s.unicode_len();
    let start: usize = if n > 0 && s.get_char(0) == '+' {
        1
    } else {
        0
    };
    let ghost d = index_digits(s@);
    proof {
        assert(d =~= s@.skip(start as int));
    }
    if start == n {
        // empty digit run never parses
        assert(d.len() == 0);
        return None;
    }
    let mut val: usize = 0;
    let mut i: usize = start;
    while i < n
        invariant
            start <= i <= n,
            n == s@.len(),
            d == index_digits(s@),
            d == s@.skip(start as int),
            digits_only(d.take(i - start)),
            val == digits_val(d.take(i - start)),
        decreases n - i,
    {
        let c = s.get_char(i);
        let u = c as u32;
        if u < 48 || u > 57 {
            proof {
                assert(d[i - start] == s@[i as int]);
                assert(!(('0' as int) <= d[i - start] as int <= ('9' as int)));
                assert(!digits_only(d));
            }
            return None;
        }
        let dv: usize = (u - 48) as usize;
        proof {
            assert(d.take(i - start + 1).drop_last() =~= d.take(i - start));
            assert(digits_only(d.take(i - start + 1))) by {
                assert(forall|j: int|
                    0 <= j < i - start + 1 ==> d.take(i - start + 1)[j] == d[j]);
                assert(d[i - start] == s@[i as int]);
            }
            assert(digits_val(d.take(i - start + 1)) == 10 * val + dv);
        }
        if val > (usize::MAX - dv) / 10 {
            // the full run, if it is all digits, can only be larger still
            proof {
                assert(10 * val + dv > usize::MAX);
                if digits_only(d) {
                    lemma_digits_val_prefix(d, i - start + 1);
                    assert(digits_val(d) > usize::MAX);
                }
            }
            return None;
        }
        val = val * 10 + dv;
        i = i + 1;
    }
    proof {
        assert(d.take(i - start) =~= d);
    }
    Some(val)
}

/// `s` divided at every occurrence of `delim`: one part more than there
/// are delimiters, parts possibly empty, the delimiter kept in none.
pub open spec fn split_on(s: Seq<char>, delim: char) -> Seq<Seq<char>>
    decreases s.len(),
    via split_on_decreases
{
    let i = find_char(s, delim);
    if i < 0 {
        seq![s]
    } else {
        seq![s.take(i)] + split_on(s.skip(i + 1), delim)
    }
}

#[via_fn]
proof fn split_on_decreases(s: Seq<char>, delim: char) {
    lemma_find_char(s, delim);
}

/// The views of a vector of owned strings.
pub open spec fn strs_view(v: Seq<String>) -> Seq<Seq<char>> {
    v.map(|i: int, s: String| s@)
}

/// Splits `s` at every occurrence of `delim`, as `str::split` does.
pub fn split_str(s: &str, delim: char) -> (parts: Vec<String>)
    ensures
        strs_view(parts@) == split_on(s@, delim),
    decreases s@.len(),
{
    let found = find_char_at(s, delim);
    match found {
        None => {
            let mut parts: Vec<String> = Vec::new();
            parts.push(String::from_str(s));
            proof {
                assert(strs_view(parts@) =~= split_on(s@, delim));
            }
            parts
        },
        Some(i) => {
            proof {
                lemma_find_char(s@, delim);
            }
            let n = s.unicode_len();
            let head = s.substring_char(0, i);
            let tail = s.substring_char(i + 1, n);
            proof {
                assert(tail@ =~= s@.skip(i + 1));
                assert(head@ =~= s@.take(i as int));
            }
            let mut parts = split_str(tail, delim);
            parts.insert(0, String::from_str(head));
            proof {
                assert(strs_view(parts@) =~= split_on(s@, delim));
            }
            parts
        },
    }
}

/// Finds the first occurrence of `c` in `s`, as an executable search.
pub fn find_char_at(s: &str, c: char) -> (r: Option<usize>)
    ensures
        match r {
            Some(i) => find_char(s@, c) == i as int,
            None => find_char(s@, c) == -1,
        },
{
    let n = s.unicode_len();
    let mut i: usize = 0;
    while i < n
        invariant
            0 <= i <= n,
            n == s@.len(),
            forall|j: int| 0 <= j < i ==> s@[j] != c,
        decreases n - i,
    {
        if s.get_char(i) == c {
            proof {
                lemma_find_char_witness(s@, c, i as int);
            }
            return Some(i);
        }
        i = i + 1;
    }
    proof {
        lemma_find_char_absent(s@, c);
    }
    None
}

} // verus!
