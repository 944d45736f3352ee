//! Character-level text handling shared by the configuration, monitor and
//! sandbox modules: whitespace trimming, substring search, whitespace
//! splitting, decimal formatting and integer parsing, each with its
//! specification over `Seq<char>`.

use vstd::prelude::*;

verus! {

// ── Conversions between strings and character vectors ──────────────────────

/// The characters of `s`, in order.
pub fn chars_of(s: &str) -> (res: Vec<char>)
    ensures
        res@ == s@,
{
    let mut res: Vec<char> = Vec::new();
    for c in it: s.chars()
        invariant
            res@ == it.seq().take(it.index() as int),
            it.seq() == s@,
    {
        res.push(c);
    }
    res
}

/// `String::from_iter` over a slice of characters: the string whose
/// characters are those of `v`, in order.
#[verifier::external_body]
pub(crate) fn string_of(v: &[char]) -> (res: String)
    ensures
        res@ == v@,
{
    v.iter().collect()
}

// ── Whitespace ───────────────────────────────────────────────────────────────

/// `char::is_whitespace`: the characters with the Unicode `White_Space`
/// property.
pub open spec fn is_ws(c: char) -> bool {
    let u = c as u32;
    ||| 0x9 <= u <= 0xd
    ||| u == 0x20
    ||| u == 0x85
    ||| u == 0xa0
    ||| u == 0x1680
    ||| 0x2000 <= u <= 0x200a
    ||| u == 0x2028
    ||| u == 0x2029
    ||| u == 0x202f
    ||| u == 0x205f
    ||| u == 0x3000
}

pub fn is_whitespace(c: char) -> (r: bool)
    ensures
        r == is_ws(c),
{
    let u = c as u32;
    (0x9 <= u && u <= 0xd) || u == 0x20 || u == 0x85 || u == 0xa0 || u == 0x1680 || (0x2000 <= u
        && u <= 0x200a) || u == 0x2028 || u == 0x2029 || u == 0x202f || u == 0x205f || u == 0x3000
}

/// `s` without its leading characters that satisfy `p`.
pub open spec fn trim_start_by(s: Seq<char>, p: spec_fn(char) -> bool) -> Seq<char>
    decreases s.len(),
{
    if s.len() > 0 && p(s[0]) {
        trim_start_by(s.drop_first(), p)
    } else {
        s
    }
}

/// `s` without its trailing characters that satisfy `p`.
pub open spec fn trim_end_by(s: Seq<char>, p: spec_fn(char) -> bool) -> Seq<char>
    decreases s.len(),
{
    if s.len() > 0 && p(s.last()) {
        trim_end_by(s.drop_last(), p)
    } else {
        s
    }
}

pub open spec fn ws_pred() -> spec_fn(char) -> bool {
    |c: char| is_ws(c)
}

/// `str::trim`: leading and trailing whitespace removed.
pub open spec fn trim(s: Seq<char>) -> Seq<char> {
    trim_end_by(trim_start_by(s, ws_pred()), ws_pred())
}

/// Membership in a set of characters given as a sequence.
pub open spec fn in_set(set: Seq<char>) -> spec_fn(char) -> bool {
    |c: char| set.contains(c)
}

/// `str::trim_matches` with a set of characters.
pub open spec fn trim_set(s: Seq<char>, set: Seq<char>) -> Seq<char> {
    trim_end_by(trim_start_by(s, in_set(set)), in_set(set))
}

proof fn lemma_trim_start_step(s: Seq<char>, i: int, p: spec_fn(char) -> bool)
    requires
        0 <= i < s.len(),
        p(s[i]),
    ensures
        trim_start_by(s.subrange(i, s.len() as int), p) == trim_start_by(
            s.subrange(i + 1, s.len() as int),
            p,
        ),
{
    assert(s.subrange(i, s.len() as int).drop_first() =~= s.subrange(i + 1, s.len() as int));
}

proof fn lemma_trim_end_step(s: Seq<char>, j: int, p: spec_fn(char) -> bool)
    requires
        0 < j <= s.len(),
        p(s[j - 1]),
    ensures
        trim_end_by(s.subrange(0, j), p) == trim_end_by(s.subrange(0, j - 1), p),
{
    assert(s.subrange(0, j).drop_last() =~= s.subrange(0, j - 1));
}

/// The characters of `v[lo..hi]`.
pub fn slice_chars(v: &Vec<char>, lo: usize, hi: usize) -> (res: Vec<char>)
    requires
        lo <= hi <= v.len(),
    ensures
        res@ == v@.subrange(lo as int, hi as int),
{
    let mut res: Vec<char> = Vec::new();
    let mut i = lo;
    while i < hi
        invariant
            lo <= i <= hi <= v.len(),
            res@ == v@.subrange(lo as int, i as int),
        decreases hi - i,
    {
        res.push(v[i]);
        i += 1;
        assert(res@ =~= v@.subrange(lo as int, i as int));
    }
    res
}

/// `str::trim` on a character vector.
pub fn trim_chars(v: &Vec<char>) -> (res: Vec<char>)
    ensures
        res@ == trim(v@),
{
    let n = v.len();
    let mut lo: usize = 0;
    proof {
        assert(v@.subrange(0, n as int) =~= v@);
    }
    while lo < n && is_whitespace(v[lo])
        invariant
            lo <= n == v.len(),
            trim_start_by(v@, ws_pred()) == trim_start_by(v@.subrange(lo as int, n as int), ws_pred()),
        decreases n - lo,
    {
        proof {
            lemma_trim_start_step(v@, lo as int, ws_pred());
        }
        lo += 1;
    }
    let mid = slice_chars(v, lo, n);
    proof {
        if lo < n {
            assert(mid@[0] == v@[lo as int]);
        }
        assert(trim_start_by(mid@, ws_pred()) == mid@);
    }
    let m = mid.len();
    let mut hi: usize = m;
    proof {
        assert(mid@.subrange(0, m as int) =~= mid@);
    }
    while hi > 0 && is_whitespace(mid[hi - 1])
        invariant
            hi <= m == mid.len(),
            trim_end_by(mid@, ws_pred()) == trim_end_by(mid@.subrange(0, hi as int), ws_pred()),
        decreases hi,
    {
        proof {
            lemma_trim_end_step(mid@, hi as int, ws_pred());
        }
        hi -= 1;
    }
    let res = slice_chars(&mid, 0, hi);
    proof {
        if hi > 0 {
            assert(res@.last() == mid@[hi - 1]);
        }
    }
    res
}

/// Whether `c` occurs in `set`.
pub fn char_in(set: &Vec<char>, c: char) -> (r: bool)
    ensures
        r == set@.contains(c),
{
    let mut i: usize = 0;
    while i < set.len()
        invariant
            i <= set.len(),
            forall|k: int| 0 <= k < i ==> set@[k] != c,
        decreases set.len() - i,
    {
        if set[i] == c {
            return true;
        }
        i += 1;
    }
    false
}

/// `str::trim_matches` with a set of characters, on a character vector.
pub fn trim_set_chars(v: &Vec<char>, set: &Vec<char>) -> (res: Vec<char>)
    ensures
        res@ == trim_set(v@, set@),
{
    let n = v.len();
    let mut lo: usize = 0;
    proof {
        assert(v@.subrange(0, n as int) =~= v@);
    }
    while lo < n && char_in(set, v[lo])
        invariant
            lo <= n == v.len(),
            trim_start_by(v@, in_set(set@)) == trim_start_by(
                v@.subrange(lo as int, n as int),
                in_set(set@),
            ),
        decreases n - lo,
    {
        proof {
            lemma_trim_start_step(v@, lo as int, in_set(set@));
        }
        lo += 1;
    }
    let mid = slice_chars(v, lo, n);
    proof {
        if lo < n {
            assert(mid@[0] == v@[lo as int]);
        }
        assert(trim_start_by(mid@, in_set(set@)) == mid@);
    }
    let m = mid.len();
    let mut hi: usize = m;
    proof {
        assert(mid@.subrange(0, m as int) =~= mid@);
    }
    while hi > 0 && char_in(set, mid[hi - 1])
        invariant
            hi <= m == mid.len(),
            trim_end_by(mid@, in_set(set@)) == trim_end_by(
                mid@.subrange(0, hi as int),
                in_set(set@),
            ),
        decreases hi,
    {
        proof {
            lemma_trim_end_step(mid@, hi as int, in_set(set@));
        }
        hi -= 1;
    }
    let res = slice_chars(&mid, 0, hi);
    proof {
        if hi > 0 {
            assert(res@.last() == mid@[hi - 1]);
        }
    }
    res
}


// ── Comparison and search ───────────────────────────────────────────────────

/// Whether `s` holds `pat` starting at index `i`.
pub open spec fn occurs_at(s: Seq<char>, pat: Seq<char>, i: int) -> bool {
    0 <= i && i + pat.len() <= s.len() && s.subrange(i, i + pat.len()) == pat
}

/// `str::contains` with a string pattern.
pub open spec fn has_sub(s: Seq<char>, pat: Seq<char>) -> bool {
    exists|i: int| occurs_at(s, pat, i)
}

/// `str::starts_with` with a string pattern.
pub open spec fn starts_with(s: Seq<char>, pat: Seq<char>) -> bool {
    occurs_at(s, pat, 0)
}

/// Whether `pat` occurs in `s` at index `i`.
pub fn occurs_at_exec(s: &Vec<char>, pat: &Vec<char>, i: usize) -> (r: bool)
    ensures
        r == occurs_at(s@, pat@, i as int),
{
    if i > s.len() || pat.len() > s.len() - i {
        return false;
    }
    let mut k: usize = 0;
    while k < pat.len()
        invariant
            i + pat.len() <= s.len(),
            k <= pat.len(),
            forall|j: int| 0 <= j < k ==> s@[i + j] == pat@[j],
        decreases pat.len() - k,
    {
        if s[i + k] != pat[k] {
            proof {
                assert(s@.subrange(i as int, i + pat.len())[k as int] != pat@[k as int]);
            }
            return false;
        }
        k += 1;
    }
    proof {
        assert(s@.subrange(i as int, i + pat.len()) =~= pat@);
    }
    true
}

/// `str::contains` on character vectors.
pub fn contains_chars(s: &Vec<char>, pat: &Vec<char>) -> (r: bool)
    ensures
        r == has_sub(s@, pat@),
{
    if pat.len() > s.len() {
        return false;
    }
    let limit = s.len() - pat.len();
    let mut i: usize = 0;
    while i < limit
        invariant
            limit == s.len() - pat.len(),
            i <= limit,
            forall|j: int| 0 <= j < i ==> !occurs_at(s@, pat@, j),
        decreases limit - i,
    {
        if occurs_at_exec(s, pat, i) {
            return true;
        }
        i += 1;
    }
    if occurs_at_exec(s, pat, limit) {
        return true;
    }
    proof {
        assert forall|j: int| !occurs_at(s@, pat@, j) by {
            if occurs_at(s@, pat@, j) {
                assert(j <= limit);
            }
        }
    }
    false
}

/// Whether `s` contains the string `pat`.
pub fn contains_str(s: &Vec<char>, pat: &str) -> (r: bool)
    ensures
        r == has_sub(s@, pat@),
{
    let p = chars_of(pat);
    contains_chars(s, &p)
}

/// Whether `s` begins with the string `pat`.
pub fn starts_with_str(s: &Vec<char>, pat: &str) -> (r: bool)
    ensures
        r == starts_with(s@, pat@),
{
    let p = chars_of(pat);
    occurs_at_exec(s, &p, 0)
}

/// Equality of two character sequences.
pub fn chars_eq(a: &Vec<char>, b: &Vec<char>) -> (r: bool)
    ensures
        r == (a@ == b@),
{
    if a.len() != b.len() {
        return false;
    }
    let r = occurs_at_exec(a, b, 0);
    proof {
        if r {
            assert(a@.subrange(0, b@.len() as int) =~= a@);
        } else {
            assert(a@.subrange(0, b@.len() as int) =~= a@);
        }
    }
    r
}

/// Equality of a character vector with a string.
pub fn chars_eq_str(a: &Vec<char>, b: &str) -> (r: bool)
    ensures
        r == (a@ == b@),
{
    let bv = chars_of(b);
    chars_eq(a, &bv)
}

/// Equality of two strings by their characters.
pub fn str_eq(a: &str, b: &str) -> (r: bool)
    ensures
        r == (a@ == b@),
{
    let av = chars_of(a);
    let bv = chars_of(b);
    chars_eq(&av, &bv)
}

// ── Splitting on whitespace ─────────────────────────────────────────────────

/// The first index at or after `i` that does not hold whitespace.
pub open spec fn skip_ws(s: Seq<char>, i: int) -> int
    decreases s.len() - i,
{
    if 0 <= i < s.len() && is_ws(s[i]) {
        skip_ws(s, i + 1)
    } else {
        i
    }
}

/// The first index at or after `i` that holds whitespace (or the end).
pub open spec fn word_end(s: Seq<char>, i: int) -> int
    decreases s.len() - i,
{
    if 0 <= i < s.len() && !is_ws(s[i]) {
        word_end(s, i + 1)
    } else {
        i
    }
}

pub proof fn lemma_skip_ws_bounds(s: Seq<char>, i: int)
    requires
        0 <= i <= s.len(),
    ensures
        i <= skip_ws(s, i) <= s.len(),
        skip_ws(s, i) < s.len() ==> !is_ws(s[skip_ws(s, i)]),
        forall|k: int| i <= k < skip_ws(s, i) ==> is_ws(#[trigger] s[k]),
    decreases s.len() - i,
{
    if i < s.len() && is_ws(s[i]) {
        lemma_skip_ws_bounds(s, i + 1);
    }
}

pub proof fn lemma_word_end_bounds(s: Seq<char>, i: int)
    requires
        0 <= i <= s.len(),
    ensures
        i <= word_end(s, i) <= s.len(),
        word_end(s, i) < s.len() ==> is_ws(s[word_end(s, i)]),
        forall|k: int| i <= k < word_end(s, i) ==> !is_ws(#[trigger] s[k]),
    decreases s.len() - i,
{
    if i < s.len() && !is_ws(s[i]) {
        lemma_word_end_bounds(s, i + 1);
    }
}

/// `str::split_whitespace` of `s[i..]`: its maximal runs of non-whitespace
/// characters, in order.
pub open spec fn words_from(s: Seq<char>, i: int) -> Seq<Seq<char>>
    decreases s.len() - i,
    when 0 <= i <= s.len()
{
    let j = skip_ws(s, i);
    proof {
        lemma_skip_ws_bounds(s, i);
    }
    if j >= s.len() {
        seq![]
    } else {
        let k = word_end(s, j);
        proof {
            lemma_word_end_bounds(s, j);
        }
        seq![s.subrange(j, k)] + words_from(s, k)
    }
}

/// `str::split_whitespace`.
pub open spec fn words(s: Seq<char>) -> Seq<Seq<char>> {
    words_from(s, 0)
}

/// The index of the first non-whitespace character at or after `i`.
pub fn skip_ws_exec(s: &Vec<char>, i: usize) -> (r: usize)
    requires
        i <= s.len(),
    ensures
        r == skip_ws(s@, i as int),
        i <= r <= s.len(),
{
    let mut j = i;
    while j < s.len() && is_whitespace(s[j])
        invariant
            i <= j <= s.len(),
            skip_ws(s@, i as int) == skip_ws(s@, j as int),
        decreases s.len() - j,
    {
        j += 1;
    }
    j
}

/// The end of the run of non-whitespace characters starting at `i`.
pub fn word_end_exec(s: &Vec<char>, i: usize) -> (r: usize)
    requires
        i <= s.len(),
    ensures
        r == word_end(s@, i as int),
        i <= r <= s.len(),
{
    let mut j = i;
    while j < s.len() && !is_whitespace(s[j])
        invariant
            i <= j <= s.len(),
            word_end(s@, i as int) == word_end(s@, j as int),
        decreases s.len() - j,
    {
        j += 1;
    }
    j
}

/// The character sequences held by a vector of character vectors.
pub open spec fn seq_views(v: Seq<Vec<char>>) -> Seq<Seq<char>> {
    v.map_values(|x: Vec<char>| x@)
}

pub proof fn lemma_seq_views_push(v: Seq<Vec<char>>, x: Vec<char>)
    ensures
        seq_views(v.push(x)) == seq_views(v).push(x@),
{
    assert(seq_views(v.push(x)) =~= seq_views(v).push(x@));
}

/// `str::split_whitespace` on a character vector.
pub fn split_whitespace(s: &Vec<char>) -> (res: Vec<Vec<char>>)
    ensures
        seq_views(res@) == words(s@),
{
    let mut res: Vec<Vec<char>> = Vec::new();
    let mut i: usize = 0;
    while i < s.len()
        invariant
            i <= s.len(),
            words(s@) == seq_views(res@) + words_from(s@, i as int),
        decreases s.len() - i,
    {
        let j = skip_ws_exec(s, i);
        if j == s.len() {
            proof {
                assert(words_from(s@, i as int) == Seq::<Seq<char>>::empty());
                assert(words_from(s@, j as int) == Seq::<Seq<char>>::empty());
            }
            i = j;
        } else {
        let k = word_end_exec(s, j);
        proof {
            lemma_skip_ws_bounds(s@, i as int);
            lemma_word_end_bounds(s@, j as int);
        }
        let w = slice_chars(s, j, k);
        let ghost before = seq_views(res@);
        let ghost old_res = res@;
        res.push(w);
        proof {
            lemma_seq_views_push(old_res, w);
            assert(words_from(s@, i as int) == seq![w@] + words_from(s@, k as int));
            assert(before + words_from(s@, i as int) =~= before.push(w@) + words_from(s@, k as int));
        }
        i = k;
        }
    }
    proof {
        if i == s.len() {
            assert(words_from(s@, i as int) == Seq::<Seq<char>>::empty());
        }
        assert(words(s@) =~= seq_views(res@));
    }
    res
}


// ── Building character sequences ────────────────────────────────────────────

/// Appends the characters of `src` to `dst`.
pub fn push_all(dst: &mut Vec<char>, src: &Vec<char>)
    ensures
        final(dst)@ == old(dst)@ + src@,
{
    let ghost start = dst@;
    let mut i: usize = 0;
    while i < src.len()
        invariant
            i <= src.len(),
            dst@ == start + src@.subrange(0, i as int),
        decreases src.len() - i,
    {
        dst.push(src[i]);
        i += 1;
        assert(dst@ =~= start + src@.subrange(0, i as int));
    }
    assert(src@.subrange(0, src.len() as int) =~= src@);
}

/// Appends the characters of the string `src` to `dst`.
pub fn push_str(dst: &mut Vec<char>, src: &str)
    ensures
        final(dst)@ == old(dst)@ + src@,
{
    let v = chars_of(src);
    push_all(dst, &v);
}

/// `s` padded on the right with spaces to at least `width` characters, as
/// the `{:<width}` format specification does.
pub open spec fn pad_right(s: Seq<char>, width: nat) -> Seq<char> {
    if s.len() >= width {
        s
    } else {
        s + Seq::new((width - s.len()) as nat, |i: int| ' ')
    }
}

pub fn pad_right_chars(s: &Vec<char>, width: usize) -> (res: Vec<char>)
    ensures
        res@ == pad_right(s@, width as nat),
{
    let mut res = slice_chars(s, 0, s.len());
    assert(s@.subrange(0, s.len() as int) =~= s@);
    let ghost base = res@;
    while res.len() < width
        invariant
            base == s@,
            base.len() <= res.len(),
            res@.subrange(0, base.len() as int) == base,
            forall|k: int| base.len() <= k < res.len() ==> res@[k] == ' ',
            res.len() > base.len() ==> res.len() <= width,
        decreases width - res.len(),
    {
        res.push(' ');
        assert(res@.subrange(0, base.len() as int) =~= base);
    }
    proof {
        if s.len() < width {
            assert(res@ =~= s@ + Seq::new((width - s.len()) as nat, |i: int| ' '));
        } else {
            assert(res.len() == s.len());
            assert(res@ =~= res@.subrange(0, base.len() as int));
        }
    }
    res
}

/// The elements of `parts` joined with `sep` between consecutive elements.
pub open spec fn join_seqs(parts: Seq<Seq<char>>, sep: Seq<char>) -> Seq<char>
    decreases parts.len(),
{
    if parts.len() == 0 {
        seq![]
    } else if parts.len() == 1 {
        parts[0]
    } else {
        join_seqs(parts.drop_last(), sep) + sep + parts.last()
    }
}

/// The character sequences of a vector of strings.
pub open spec fn string_views(v: Seq<String>) -> Seq<Seq<char>> {
    v.map_values(|x: String| x@)
}

/// `[String]::join`.
pub fn join_strings(parts: &Vec<String>, sep: &str) -> (res: Vec<char>)
    ensures
        res@ == join_seqs(string_views(parts@), sep@),
{
    let mut res: Vec<char> = Vec::new();
    let ghost views = string_views(parts@);
    let mut i: usize = 0;
    while i < parts.len()
        invariant
            i <= parts.len(),
            views == string_views(parts@),
            res@ == join_seqs(views.take(i as int), sep@),
        decreases parts.len() - i,
    {
        if i > 0 {
            push_str(&mut res, sep);
        }
        push_str(&mut res, parts[i].as_str());
        proof {
            assert(views.take(i + 1).drop_last() =~= views.take(i as int));
            if i == 0 {
                assert(views.take(1) =~= seq![views[0]]);
            }
        }
        i += 1;
    }
    assert(views.take(parts.len() as int) =~= views);
    res
}

// ── Decimal formatting ──────────────────────────────────────────────────────

/// The decimal digit character for `d` in `0..10`.
pub open spec fn digit_char(d: int) -> char {
    if d == 0 { '0' }
    else if d == 1 { '1' }
    else if d == 2 { '2' }
    else if d == 3 { '3' }
    else if d == 4 { '4' }
    else if d == 5 { '5' }
    else if d == 6 { '6' }
    else if d == 7 { '7' }
    else if d == 8 { '8' }
    else { '9' }
}

/// The decimal representation of `n`, as `Display` writes it.
pub open spec fn dec_nat(n: nat) -> Seq<char>
    decreases n,
{
    if n < 10 {
        seq![digit_char(n as int)]
    } else {
        dec_nat(n / 10).push(digit_char((n % 10) as int))
    }
}

/// The decimal representation of `i`, with a leading `-` when negative.
pub open spec fn dec_int(i: int) -> Seq<char> {
    if i < 0 {
        seq!['-'] + dec_nat((-i) as nat)
    } else {
        dec_nat(i as nat)
    }
}

fn digit_to_char(d: u64) -> (c: char)
    requires
        d < 10,
    ensures
        c == digit_char(d as int),
{
    if d == 0 { '0' }
    else if d == 1 { '1' }
    else if d == 2 { '2' }
    else if d == 3 { '3' }
    else if d == 4 { '4' }
    else if d == 5 { '5' }
    else if d == 6 { '6' }
    else if d == 7 { '7' }
    else if d == 8 { '8' }
    else { '9' }
}

/// The decimal representation of an unsigned integer.
pub fn u64_to_chars(n: u64) -> (res: Vec<char>)
    ensures
        res@ == dec_nat(n as nat),
    decreases n,
{
    if n < 10 {
        let mut v: Vec<char> = Vec::new();
        v.push(digit_to_char(n));
        assert(v@ =~= seq![digit_char(n as int)]);
        v
    } else {
        let mut v = u64_to_chars(n / 10);
        v.push(digit_to_char(n % 10));
        v
    }
}

/// The decimal representation of a signed integer.
pub fn i64_to_chars(n: i64) -> (res: Vec<char>)
    ensures
        res@ == dec_int(n as int),
{
    if n < 0 {
        let mag: u64 = if n == i64::MIN {
            9223372036854775808u64
        } else {
            (-n) as u64
        };
        let digits = u64_to_chars(mag);
        let mut v: Vec<char> = Vec::new();
        v.push('-');
        push_all(&mut v, &digits);
        assert(v@ =~= seq!['-'] + dec_nat((-(n as int)) as nat));
        v
    } else {
        u64_to_chars(n as u64)
    }
}

// ── Integer parsing ─────────────────────────────────────────────────────────

proof fn lemma_digit_char(d: int)
    requires
        0 <= d < 10,
    ensures
        is_digit(digit_char(d)),
        digit_val(digit_char(d)) == d,
{
    assert('0' as u32 == 48 && '1' as u32 == 49 && '2' as u32 == 50 && '3' as u32 == 51);
    assert('4' as u32 == 52 && '5' as u32 == 53 && '6' as u32 == 54 && '7' as u32 == 55);
    assert('8' as u32 == 56 && '9' as u32 == 57);
}

/// The decimal digits of `n` are digits, at least one, and read back as `n`.
pub proof fn lemma_dec_nat_reads_back(n: nat)
    ensures
        dec_nat(n).len() > 0,
        all_digits(dec_nat(n)),
        digits_value(dec_nat(n)) == n,
    decreases n,
{
    if n < 10 {
        lemma_digit_char(n as int);
        assert(dec_nat(n).drop_last() =~= Seq::<char>::empty());
        assert(digits_value(Seq::<char>::empty()) == 0);
    } else {
        lemma_digit_char((n % 10) as int);
        lemma_dec_nat_reads_back(n / 10);
        let d = dec_nat(n);
        assert(d.drop_last() =~= dec_nat(n / 10));
        assert(n == (n / 10) * 10 + n % 10);
        assert(digits_value(d) == digits_value(dec_nat(n / 10)) * 10 + digit_val(digit_char((n % 10) as int)));
        assert forall|i: int| 0 <= i < d.len() implies is_digit(#[trigger] d[i]) by {
            if i < d.len() - 1 {
                assert(d[i] == dec_nat(n / 10)[i]);
            }
        }
    }
}

/// A string with no whitespace in it is its own trim.
pub proof fn lemma_trim_plain(s: Seq<char>)
    requires
        forall|i: int| 0 <= i < s.len() ==> !is_ws(#[trigger] s[i]),
    ensures
        trim(s) == s,
{
    if s.len() > 0 {
        assert(!is_ws(s[0]));
        assert(!is_ws(s[s.len() - 1]));
    }
    assert(trim_start_by(s, ws_pred()) == s);
    assert(trim_end_by(s, ws_pred()) == s);
}

/// No whitespace starts or ends a decimal representation.
pub proof fn lemma_trim_dec_int(i: int)
    ensures
        trim(dec_int(i)) == dec_int(i),
{
    let s = dec_int(i);
    lemma_dec_nat_reads_back(if i < 0 { (-i) as nat } else { i as nat });
    assert(s.len() > 0);
    assert(!is_ws(s[0]));
    assert(!is_ws(s.last()));
    assert(trim_start_by(s, ws_pred()) == s);
    assert(trim_end_by(s, ws_pred()) == s);
}

/// Parsing a decimal representation gives the number back, when it is in
/// the range.
pub proof fn lemma_parse_dec_int(i: int, min: int, max: int)
    requires
        min <= i <= max,
    ensures
        parse_signed(dec_int(i), min, max) == Some(i),
{
    let s = dec_int(i);
    if i < 0 {
        lemma_dec_nat_reads_back((-i) as nat);
        assert(s.drop_first() =~= dec_nat((-i) as nat));
    } else {
        lemma_dec_nat_reads_back(i as nat);
        assert(is_digit(s[0]));
    }
}

pub open spec fn is_digit(c: char) -> bool {
    48 <= (c as u32) <= 57
}

pub open spec fn digit_val(c: char) -> int {
    (c as u32) - 48
}

pub open spec fn all_digits(s: Seq<char>) -> bool {
    forall|i: int| 0 <= i < s.len() ==> is_digit(#[trigger] s[i])
}

/// The number written by a sequence of decimal digits.
pub open spec fn digits_value(s: Seq<char>) -> nat
    decreases s.len(),
{
    if s.len() == 0 {
        0
    } else {
        (digits_value(s.drop_last()) * 10 + digit_val(s.last())) as nat
    }
}

/// What `FromStr` for an unsigned integer type whose largest value is `max`
/// gives on `s`: an optional `+`, then at least one decimal digit, and a value
/// that fits.
pub open spec fn parse_unsigned(s: Seq<char>, max: nat) -> Option<nat> {
    let body = if s.len() > 0 && s[0] == '+' { s.drop_first() } else { s };
    if body.len() > 0 && all_digits(body) && digits_value(body) <= max {
        Some(digits_value(body))
    } else {
        None
    }
}

/// What `FromStr` for a signed integer type with range `min..=max` gives on
/// `s`: an optional `+` or `-`, then at least one decimal digit, and a value
/// that fits.
pub open spec fn parse_signed(s: Seq<char>, min: int, max: int) -> Option<int> {
    let neg = s.len() > 0 && s[0] == '-';
    let body = if s.len() > 0 && (s[0] == '+' || s[0] == '-') { s.drop_first() } else { s };
    let v: int = if neg { -(digits_value(body) as int) } else { digits_value(body) as int };
    if body.len() > 0 && all_digits(body) && min <= v <= max {
        Some(v)
    } else {
        None
    }
}

pub proof fn lemma_digits_value_prefix(s: Seq<char>, k: int)
    requires
        all_digits(s),
        0 <= k <= s.len(),
    ensures
        digits_value(s.take(k)) <= digits_value(s),
    decreases s.len(),
{
    if k < s.len() {
        let t = s.drop_last();
        assert(t.take(k) =~= s.take(k));
        assert(all_digits(t));
        lemma_digits_value_prefix(t, k);
        assert(is_digit(s[s.len() - 1]));
    } else {
        assert(s.take(k) =~= s);
    }
}

/// The value of the digits `s[start..]`, when they are all decimal digits,
/// there is at least one, and the value is at most `max`.
fn parse_digits(s: &Vec<char>, start: usize, max: u64) -> (res: Option<u64>)
    requires
        start <= s.len(),
        max >= 9,
    ensures
        ({
            let body = s@.subrange(start as int, s.len() as int);
            match res {
                Some(x) => body.len() > 0 && all_digits(body) && digits_value(body) <= max
                    && x == digits_value(body),
                None => !(body.len() > 0 && all_digits(body) && digits_value(body) <= max),
            }
        }),
{
    let ghost body = s@.subrange(start as int, s.len() as int);
    if start == s.len() {
        return None;
    }
    let mut acc: u64 = 0;
    let mut i = start;
    while i < s.len()
        invariant
            start <= i <= s.len(),
            body == s@.subrange(start as int, s.len() as int),
            all_digits(body.take(i - start)),
            acc == digits_value(body.take(i - start)),
            acc <= max,
            max >= 9,
        decreases s.len() - i,
    {
        let c = s[i];
        let u = c as u32;
        if u < 48 || u > 57 {
            proof {
                assert(body[i - start] == c);
            }
            return None;
        }
        let d = (u - 48) as u64;
        proof {
            assert(body.take(i - start + 1).drop_last() =~= body.take(i - start));
            assert(body.take(i - start + 1).last() == c);
            assert(all_digits(body.take(i - start + 1)));
        }
        if acc > (max - d) / 10 {
            proof {
                assert(acc * 10 + d > max) by (nonlinear_arith)
                    requires
                        acc > (max - d) / 10,
                        d <= max,
                ;
                if all_digits(body) {
                    lemma_digits_value_prefix(body, i - start + 1);
                }
            }
            return None;
        }
        proof {
            assert(acc * 10 + d <= max) by (nonlinear_arith)
                requires
                    acc <= (max - d) / 10,
                    d <= max,
            ;
        }
        acc = acc * 10 + d;
        i += 1;
    }
    assert(body.take(s.len() - start) =~= body);
    Some(acc)
}

/// `u64::from_str` on a character vector.
pub fn parse_u64(s: &Vec<char>) -> (res: Option<u64>)
    ensures
        match res {
            Some(x) => parse_unsigned(s@, u64::MAX as nat) == Some(x as nat),
            None => parse_unsigned(s@, u64::MAX as nat) is None,
        },
{
    let start: usize = if s.len() > 0 && s[0] == '+' { 1 } else { 0 };
    proof {
        if start == 1 {
            assert(s@.drop_first() =~= s@.subrange(1, s.len() as int));
        } else {
            assert(s@ =~= s@.subrange(0, s.len() as int));
        }
    }
    parse_digits(s, start, u64::MAX)
}

/// `u32::from_str` on a character vector.
pub fn parse_u32(s: &Vec<char>) -> (res: Option<u32>)
    ensures
        match res {
            Some(x) => parse_unsigned(s@, u32::MAX as nat) == Some(x as nat),
            None => parse_unsigned(s@, u32::MAX as nat) is None,
        },
{
    let start: usize = if s.len() > 0 && s[0] == '+' { 1 } else { 0 };
    proof {
        if start == 1 {
            assert(s@.drop_first() =~= s@.subrange(1, s.len() as int));
        } else {
            assert(s@ =~= s@.subrange(0, s.len() as int));
        }
    }
    match parse_digits(s, start, u32::MAX as u64) {
        Some(x) => Some(x as u32),
        None => None,
    }
}

/// `i32::from_str` on a character vector.
pub fn parse_i32(s: &Vec<char>) -> (res: Option<i32>)
    ensures
        match res {
            Some(x) => parse_signed(s@, i32::MIN as int, i32::MAX as int) == Some(x as int),
            None => parse_signed(s@, i32::MIN as int, i32::MAX as int) is None,
        },
{
    let neg = s.len() > 0 && s[0] == '-';
    let start: usize = if s.len() > 0 && (s[0] == '+' || s[0] == '-') { 1 } else { 0 };
    proof {
        if start == 1 {
            assert(s@.drop_first() =~= s@.subrange(1, s.len() as int));
        } else {
            assert(s@ =~= s@.subrange(0, s.len() as int));
        }
    }
    let bound: u64 = if neg { 2147483648 } else { 2147483647 };
    match parse_digits(s, start, bound) {
        Some(x) => {
            if neg {
                Some((-(x as i64)) as i32)
            } else {
                Some(x as i32)
            }
        },
        None => None,
    }
}


// ── Case mapping ────────────────────────────────────────────────────────────

/// What `str::to_lowercase` gives for a string: the Unicode lowercase
/// mapping of each of its characters.
pub uninterp spec fn spec_lowercase(s: Seq<char>) -> Seq<char>;

/// Whether every character of `s` is ASCII.
pub open spec fn is_ascii_chars(s: Seq<char>) -> bool {
    forall|i: int| 0 <= i < s.len() ==> (#[trigger] s[i] as u32) < 128
}

/// `A` to `Z` become `a` to `z`; every other character stays.
pub open spec fn ascii_lower_char(c: char) -> char {
    if 65 <= (c as u32) <= 90 {
        ((c as u32) + 32) as char
    } else {
        c
    }
}

/// Each character of `s` through `ascii_lower_char`.
pub open spec fn ascii_lowercase(s: Seq<char>) -> Seq<char> {
    s.map_values(|c: char| ascii_lower_char(c))
}

/// `str::to_lowercase`: the contract claims that the result is the
/// lowercase mapping named by `spec_lowercase`, a function of `s` alone,
/// and that on an ASCII string it maps `A` to `Z` onto `a` to `z` and keeps
/// every other character (the Unicode lowercase mapping of the ASCII
/// range); what the mapping is on other characters is left unsaid.
#[verifier::external_body]
pub(crate) fn to_lowercase(s: &str) -> (res: String)
    ensures
        res@ == spec_lowercase(s@),
        is_ascii_chars(s@) ==> res@ == ascii_lowercase(s@),
{
    s.to_lowercase()
}


// ── Finding ─────────────────────────────────────────────────────────────────

/// The first index at or after `i` where `pat` occurs in `s`.
pub open spec fn first_occ_from(s: Seq<char>, pat: Seq<char>, i: int) -> Option<int>
    decreases s.len() - i,
{
    if i < 0 || i + pat.len() > s.len() {
        None
    } else if occurs_at(s, pat, i) {
        Some(i)
    } else if i >= s.len() {
        None
    } else {
        first_occ_from(s, pat, i + 1)
    }
}

pub proof fn lemma_first_occ_from(s: Seq<char>, pat: Seq<char>, i: int)
    requires
        0 <= i,
    ensures
        match first_occ_from(s, pat, i) {
            Some(k) => i <= k && occurs_at(s, pat, k) && forall|j: int|
                i <= j < k ==> !occurs_at(s, pat, j),
            None => forall|j: int| i <= j ==> !occurs_at(s, pat, j),
        },
    decreases s.len() - i,
{
    if i + pat.len() > s.len() {
    } else if occurs_at(s, pat, i) {
    } else if i >= s.len() {
        assert(s.subrange(i, i + pat.len()) =~= pat);
    } else {
        lemma_first_occ_from(s, pat, i + 1);
    }
}

/// `str::find` from index `i` on: the first index at or after `i` where
/// `pat` occurs.
pub fn find_from(s: &Vec<char>, pat: &Vec<char>, i: usize) -> (r: Option<usize>)
    requires
        i <= s.len(),
    ensures
        match r {
            Some(k) => first_occ_from(s@, pat@, i as int) == Some(k as int),
            None => first_occ_from(s@, pat@, i as int) is None,
        },
{
    if pat.len() > s.len() - i {
        return None;
    }
    let limit = s.len() - pat.len();
    let mut j = i;
    while j < limit
        invariant
            i <= j <= limit,
            limit + pat.len() == s.len(),
            first_occ_from(s@, pat@, i as int) == first_occ_from(s@, pat@, j as int),
        decreases limit - j,
    {
        if occurs_at_exec(s, pat, j) {
            return Some(j);
        }
        j += 1;
    }
    if occurs_at_exec(s, pat, limit) {
        Some(limit)
    } else {
        proof {
            assert(first_occ_from(s@, pat@, limit + 1) is None);
        }
        None
    }
}


pub proof fn lemma_string_views_push(v: Seq<String>, x: String)
    ensures
        string_views(v.push(x)) == string_views(v).push(x@),
{
    assert(string_views(v.push(x)) =~= string_views(v).push(x@));
}

/// Appends the string `a` to a list of strings.
pub fn push_string(args: &mut Vec<String>, a: String)
    ensures
        string_views(final(args)@) == string_views(old(args)@).push(a@),
{
    let ghost before = args@;
    args.push(a);
    proof {
        lemma_string_views_push(before, a);
    }
}

/// Appends a copy of the string `a` to a list of strings.
pub fn push_arg(args: &mut Vec<String>, a: &str)
    ensures
        string_views(final(args)@) == string_views(old(args)@).push(a@),
{
    push_string(args, String::from_str(a));
}

/// Appends the strings of `more` to `args`.
pub fn push_args(args: &mut Vec<String>, more: Vec<String>)
    ensures
        string_views(final(args)@) == string_views(old(args)@) + string_views(more@),
{
    let ghost before = string_views(args@);
    let mut more = more;
    let ghost mv = more@;
    args.append(&mut more);
    proof {
        assert(string_views(args@) =~= before + string_views(mv));
    }
}


// ── Splitting on a character ────────────────────────────────────────────────

/// `str::split` with a character, of `s[i..]`: the pieces between the
/// occurrences of `c`, empty ones included.
pub open spec fn split_from(s: Seq<char>, c: char, i: int) -> Seq<Seq<char>>
    decreases s.len() - i,
    when 0 <= i <= s.len()
{
    match first_occ_from(s, seq![c], i) {
        None => seq![s.subrange(i, s.len() as int)],
        Some(j) => {
            proof {
                lemma_first_occ_from(s, seq![c], i);
            }
            seq![s.subrange(i, j)] + split_from(s, c, j + 1)
        },
    }
}

/// `str::split` with a character.
pub open spec fn split_on(s: Seq<char>, c: char) -> Seq<Seq<char>> {
    split_from(s, c, 0)
}

/// `str::split` with a character, on a character vector.
pub fn split_on_char(s: &Vec<char>, c: char) -> (res: Vec<Vec<char>>)
    ensures
        seq_views(res@) == split_on(s@, c),
{
    let mut pat: Vec<char> = Vec::new();
    pat.push(c);
    assert(pat@ =~= seq![c]);
    let mut res: Vec<Vec<char>> = Vec::new();
    let mut i: usize = 0;
    loop
        invariant_except_break
            split_on(s@, c) == seq_views(res@) + split_from(s@, c, i as int),
        invariant
            i <= s.len(),
            pat@ == seq![c],
        ensures
            split_on(s@, c) == seq_views(res@),
        decreases s.len() - i,
    {
        let ghost old_res = res@;
        match find_from(s, &pat, i) {
            None => {
                let piece = slice_chars(s, i, s.len());
                res.push(piece);
                proof {
                    lemma_seq_views_push(old_res, piece);
                    assert(split_from(s@, c, i as int) == seq![piece@]);
                    assert(split_on(s@, c) =~= seq_views(res@));
                }
                break;
            },
            Some(j) => {
                proof {
                    lemma_first_occ_from(s@, seq![c], i as int);
                }
                let piece = slice_chars(s, i, j);
                res.push(piece);
                proof {
                    lemma_seq_views_push(old_res, piece);
                    assert(split_from(s@, c, i as int) == seq![piece@] + split_from(s@, c, j + 1));
                    assert(seq_views(old_res) + split_from(s@, c, i as int) =~= seq_views(res@)
                        + split_from(s@, c, j + 1));
                }
                i = j + 1;
            },
        }
    }
    res
}


// ── Finding from the end ───────────────────────────────────────────────────

/// The last index of `c` in `s`.
pub open spec fn last_index_of(s: Seq<char>, c: char) -> Option<int>
    decreases s.len(),
{
    if s.len() == 0 {
        None
    } else if s.last() == c {
        Some(s.len() - 1)
    } else {
        last_index_of(s.drop_last(), c)
    }
}

pub proof fn lemma_last_index_of(s: Seq<char>, c: char)
    ensures
        match last_index_of(s, c) {
            Some(k) => 0 <= k < s.len() && s[k] == c && forall|j: int| k < j < s.len() ==> s[j] != c,
            None => forall|j: int| 0 <= j < s.len() ==> s[j] != c,
        },
    decreases s.len(),
{
    if s.len() > 0 && s.last() != c {
        let t = s.drop_last();
        lemma_last_index_of(t, c);
        assert forall|j: int| 0 <= j < t.len() implies t[j] == s[j] by {}
    }
}

/// `str::rfind` with a character.
pub fn rfind_char(s: &Vec<char>, c: char) -> (r: Option<usize>)
    ensures
        match r {
            Some(k) => last_index_of(s@, c) == Some(k as int),
            None => last_index_of(s@, c) is None,
        },
{
    let mut j = s.len();
    assert(s@.subrange(0, j as int) =~= s@);
    while j > 0
        invariant
            j <= s.len(),
            last_index_of(s@, c) == last_index_of(s@.subrange(0, j as int), c),
        decreases j,
    {
        if s[j - 1] == c {
            proof {
                assert(s@.subrange(0, j as int).last() == c);
            }
            return Some(j - 1);
        }
        proof {
            assert(s@.subrange(0, j as int).drop_last() =~= s@.subrange(0, j - 1));
        }
        j -= 1;
    }
    None
}


// ── Lines ───────────────────────────────────────────────────────────────────

/// A line with the carriage return of a `\r\n` ending removed.
pub open spec fn strip_cr(l: Seq<char>) -> Seq<char> {
    if l.len() > 0 && l.last() == '\r' {
        l.drop_last()
    } else {
        l
    }
}

/// `str::lines`: the pieces between newlines, a `\r` before a newline
/// dropped, and no empty piece after a final newline.
pub open spec fn text_lines(s: Seq<char>) -> Seq<Seq<char>> {
    let parts = split_on(s, '\n');
    if parts.len() == 0 {
        seq![]
    } else {
        let body = parts.take(parts.len() - 1).map_values(|l: Seq<char>| strip_cr(l));
        if parts.last().len() == 0 {
            body
        } else {
            body.push(parts.last())
        }
    }
}

/// `str::lines` on a character vector.
pub fn lines_of(s: &Vec<char>) -> (res: Vec<Vec<char>>)
    ensures
        seq_views(res@) == text_lines(s@),
{
    let parts = split_on_char(s, '\n');
    let mut res: Vec<Vec<char>> = Vec::new();
    if parts.len() == 0 {
        assert(seq_views(res@) =~= text_lines(s@));
        return res;
    }
    let n = parts.len() - 1;
    let ghost ps = seq_views(parts@);
    let mut i: usize = 0;
    while i < n
        invariant
            n + 1 == parts.len(),
            i <= n,
            ps == seq_views(parts@),
            seq_views(res@) == ps.take(i as int).map_values(|l: Seq<char>| strip_cr(l)),
        decreases n - i,
    {
        let p = &parts[i];
        let ghost before = res@;
        assert(ps[i as int] == p@);
        if p.len() > 0 && p[p.len() - 1] == '\r' {
            let q = slice_chars(p, 0, p.len() - 1);
            assert(q@ =~= strip_cr(p@));
            res.push(q);
        } else {
            let q = slice_chars(p, 0, p.len());
            assert(q@ =~= strip_cr(p@));
            res.push(q);
        }
        proof {
            lemma_seq_views_push(before, res@.last());
            assert(res@.drop_last() =~= before);
            assert(ps.take(i + 1).map_values(|l: Seq<char>| strip_cr(l)) =~= ps.take(
                i as int,
            ).map_values(|l: Seq<char>| strip_cr(l)).push(strip_cr(ps[i as int])));
            assert(seq_views(res@) =~= seq_views(before).push(res@.last()@));
        }
        i += 1;
    }
    if parts[n].len() > 0 {
        let ghost before = res@;
        let q = slice_chars(&parts[n], 0, parts[n].len());
        res.push(q);
        proof {
            lemma_seq_views_push(before, q);
            assert(q@ =~= ps.last());
        }
    }
    res
}

} // verus!
