//! Character-level text handling: whitespace, trimming, splitting, decimal
//! integers, and building `String`s from characters.
//!
//! All functions work on `Seq<char>` views, so that the parser's contracts can
//! speak of exactly which characters were read.
use vstd::prelude::*;

verus! {

/// The Unicode `White_Space` property, which `char::is_whitespace`,
/// `str::trim` and `str::split_whitespace` use.
pub open spec fn is_space(c: char) -> bool {
    let u = c as u32;
    (0x9 <= u && u <= 0xd) || u == 0x20 || u == 0x85 || u == 0xa0 || u == 0x1680 || (0x2000 <= u
        && u <= 0x200a) || u == 0x2028 || u == 0x2029 || u == 0x202f || u == 0x205f || u == 0x3000
}

/// An ASCII decimal digit.
pub open spec fn is_digit(c: char) -> bool {
    '0' <= c && c <= '9'
}

/// The value of an ASCII decimal digit.
pub open spec fn digit_value(c: char) -> int {
    (c as u32) - ('0' as u32)
}

/// `s` with its leading white space removed.
pub open spec fn trim_start_text(s: Seq<char>) -> Seq<char>
    decreases s.len(),
{
    if s.len() > 0 && is_space(s[0]) {
        trim_start_text(s.drop_first())
    } else {
        s
    }
}

/// `s` with its trailing white space removed.
pub open spec fn trim_end_text(s: Seq<char>) -> Seq<char>
    decreases s.len(),
{
    if s.len() > 0 && is_space(s.last()) {
        trim_end_text(s.drop_last())
    } else {
        s
    }
}

/// `s` with leading and trailing white space removed (`str::trim`).
pub open spec fn trim_text(s: Seq<char>) -> Seq<char> {
    trim_end_text(trim_start_text(s))
}

/// The pieces of `s` between occurrences of `sep`, empty pieces included
/// (`str::split` with a `char` pattern): one more piece than there are
/// separators.
pub open spec fn split_text(s: Seq<char>, sep: char) -> Seq<Seq<char>>
    decreases s.len(),
{
    if s.len() == 0 {
        seq![Seq::empty()]
    } else {
        let rest = split_text(s.drop_last(), sep);
        if s.last() == sep {
            rest.push(Seq::empty())
        } else {
            rest.update(rest.len() - 1, rest.last().push(s.last()))
        }
    }
}

/// The maximal runs of non-white-space characters of `s`, in order
/// (`str::split_whitespace`).
pub open spec fn words_of(s: Seq<char>) -> Seq<Seq<char>>
    decreases s.len(),
{
    if s.len() == 0 {
        Seq::empty()
    } else {
        let rest = words_of(s.drop_last());
        let c = s.last();
        if is_space(c) {
            rest
        } else if s.len() >= 2 && !is_space(s[s.len() - 2]) {
            rest.update(rest.len() - 1, rest.last().push(c))
        } else {
            rest.push(seq![c])
        }
    }
}

/// `s` begins with `p`.
pub open spec fn starts_with_text(s: Seq<char>, p: Seq<char>) -> bool {
    p.len() <= s.len() && s.subrange(0, p.len() as int) == p
}

/// The first position at or after `i` where `c` occurs in `s`.
pub open spec fn find_from(s: Seq<char>, c: char, i: int) -> Option<int>
    decreases s.len() - i,
{
    if i < 0 || i >= s.len() {
        None
    } else if s[i] == c {
        Some(i)
    } else {
        find_from(s, c, i + 1)
    }
}

/// The first position where `c` occurs in `s` (`str::find` with a `char`).
pub open spec fn find_text(s: Seq<char>, c: char) -> Option<int> {
    find_from(s, c, 0)
}

/// The decimal digit character for `d < 10`.
pub open spec fn digit_char(d: nat) -> char {
    (d + 48) as char
}

/// The decimal representation of `n`, without leading zeros.
pub open spec fn nat_text(n: nat) -> Seq<char>
    decreases n,
{
    if n < 10 {
        seq![digit_char(n)]
    } else {
        nat_text(n / 10).push(digit_char(n % 10))
    }
}

/// The decimal representation of `i`, with a leading `-` when negative
/// (what `{}` prints for an integer).
pub open spec fn int_text(i: int) -> Seq<char> {
    if i < 0 {
        seq!['-'] + nat_text((-i) as nat)
    } else {
        nat_text(i as nat)
    }
}

/// Why a text is not a 32-bit signed integer (std's `IntErrorKind`).
#[derive(Debug, Clone, Copy, PartialEq, Eq)]
pub enum IntError {
    Empty,
    InvalidDigit,
    PosOverflow,
    NegOverflow,
}

/// Reading decimal digits from position `i` of `s` onto the non-negative
/// accumulator `acc`.
pub open spec fn scan_up(s: Seq<char>, i: int, acc: int) -> Result<int, IntError>
    decreases s.len() - i,
{
    if i < 0 || i >= s.len() {
        Ok(acc)
    } else if !is_digit(s[i]) {
        Err(IntError::InvalidDigit)
    } else if acc * 10 + digit_value(s[i]) > i32::MAX {
        Err(IntError::PosOverflow)
    } else {
        scan_up(s, i + 1, acc * 10 + digit_value(s[i]))
    }
}

/// Reading decimal digits from position `i` of `s` onto the non-positive
/// accumulator `acc`.
pub open spec fn scan_down(s: Seq<char>, i: int, acc: int) -> Result<int, IntError>
    decreases s.len() - i,
{
    if i < 0 || i >= s.len() {
        Ok(acc)
    } else if !is_digit(s[i]) {
        Err(IntError::InvalidDigit)
    } else if acc * 10 - digit_value(s[i]) < i32::MIN {
        Err(IntError::NegOverflow)
    } else {
        scan_down(s, i + 1, acc * 10 - digit_value(s[i]))
    }
}

/// What `str::parse::<i32>` gives for `s`: an optional sign, then decimal
/// digits, the value checked against the range of `i32` digit by digit.
pub open spec fn i32_of_text(s: Seq<char>) -> Result<int, IntError> {
    if s.len() == 0 {
        Err(IntError::Empty)
    } else if (s[0] == '+' || s[0] == '-') && s.len() == 1 {
        Err(IntError::InvalidDigit)
    } else if s[0] == '+' {
        scan_up(s, 1, 0)
    } else if s[0] == '-' {
        scan_down(s, 1, 0)
    } else {
        scan_up(s, 0, 0)
    }
}

/// The text that std prints for an integer parse error.
pub open spec fn int_error_text(e: IntError) -> Seq<char> {
    match e {
        IntError::Empty => "cannot parse integer from empty string"@,
        IntError::InvalidDigit => "invalid digit found in string"@,
        IntError::PosOverflow => "number too large to fit in target type"@,
        IntError::NegOverflow => "number too small to fit in target type"@,
    }
}

/// Reading digits up from a value in range stays in range.
proof fn lemma_scan_up_range(s: Seq<char>, i: int, acc: int)
    requires
        0 <= acc <= i32::MAX,
    ensures
        scan_up(s, i, acc) matches Ok(v) ==> 0 <= v <= i32::MAX,
    decreases s.len() - i,
{
    if i < 0 || i >= s.len() {
    } else if !is_digit(s[i]) {
    } else if acc * 10 + digit_value(s[i]) > i32::MAX {
    } else {
        lemma_scan_up_range(s, i + 1, acc * 10 + digit_value(s[i]));
    }
}

/// Reading digits down from a value in range stays in range.
proof fn lemma_scan_down_range(s: Seq<char>, i: int, acc: int)
    requires
        i32::MIN <= acc <= 0,
    ensures
        scan_down(s, i, acc) matches Ok(v) ==> i32::MIN <= v <= 0,
    decreases s.len() - i,
{
    if i < 0 || i >= s.len() {
    } else if !is_digit(s[i]) {
    } else if acc * 10 - digit_value(s[i]) < i32::MIN {
    } else {
        lemma_scan_down_range(s, i + 1, acc * 10 - digit_value(s[i]));
    }
}

/// An `i32_of_text` result that is `Ok` lies in the range of `i32`.
pub proof fn lemma_i32_of_text_range(s: Seq<char>)
    ensures
        i32_of_text(s) matches Ok(v) ==> i32::MIN <= v <= i32::MAX,
{
    if s.len() == 0 {
    } else if (s[0] == '+' || s[0] == '-') && s.len() == 1 {
    } else if s[0] == '+' {
        lemma_scan_up_range(s, 1, 0);
    } else if s[0] == '-' {
        lemma_scan_down_range(s, 1, 0);
    } else {
        lemma_scan_up_range(s, 0, 0);
    }
}

/// Whether `c` is white space in the sense of `char::is_whitespace`.
pub fn is_space_char(c: char) -> (b: bool)
    ensures
        b == is_space(c),
{
    let u = c as u32;
    (0x9 <= u && u <= 0xd) || u == 0x20 || u == 0x85 || u == 0xa0 || u == 0x1680 || (0x2000 <= u
        && u <= 0x200a) || u == 0x2028 || u == 0x2029 || u == 0x202f || u == 0x205f || u == 0x3000
}

/// The characters of `s`, in order.
pub fn chars_of(s: &str) -> (v: Vec<char>)
    ensures
        v@ == s@,
{
    let mut v: Vec<char> = Vec::new();
    for c in it: s.chars()
        invariant
            v@ == it.seq().take(it.index() as int),
    {
        v.push(c);
    }
    v
}

/// Appends `c` to `s` (std's `String::push`).
#[verifier::external_body]
fn push_char(s: &mut String, c: char)
    ensures
        final(s)@ == old(s)@.push(c),
{
    s.push(c);
}

/// A `String` holding exactly the characters of `v`.
pub fn string_of(v: &Vec<char>) -> (s: String)
    ensures
        s@ == v@,
{
    let mut s = String::new();
    let n = v.len();
    for i in 0..n
        invariant
            n == v.len(),
            s@ == v@.take(i as int),
    {
        push_char(&mut s, v[i]);
        assert(v@.take(i + 1) == v@.take(i as int).push(v@[i as int]));
    }
    assert(v@.take(n as int) == v@);
    s
}

/// Appends all of `w` to `v`.
pub fn push_all(v: &mut Vec<char>, w: &Vec<char>)
    ensures
        final(v)@ == old(v)@ + w@,
{
    let n = w.len();
    for i in 0..n
        invariant
            n == w.len(),
            v@ == old(v)@ + w@.take(i as int),
    {
        v.push(w[i]);
        assert(w@.take(i + 1) == w@.take(i as int).push(w@[i as int]));
    }
    assert(w@.take(n as int) == w@);
}

/// Appends the characters of `s` to `v`.
pub fn push_str(v: &mut Vec<char>, s: &str)
    ensures
        final(v)@ == old(v)@ + s@,
{
    let w = chars_of(s);
    push_all(v, &w);
}

/// The characters of `v` at positions `lo .. hi`.
pub fn slice_of(v: &Vec<char>, lo: usize, hi: usize) -> (r: Vec<char>)
    requires
        lo <= hi <= v.len(),
    ensures
        r@ == v@.subrange(lo as int, hi as int),
{
    let mut r: Vec<char> = Vec::new();
    let mut i = lo;
    while i < hi
        invariant
            lo <= i <= hi <= v.len(),
            r@ == v@.subrange(lo as int, i as int),
        decreases hi - i,
    {
        r.push(v[i]);
        assert(v@.subrange(lo as int, i + 1) == v@.subrange(lo as int, i as int).push(v@[i as int]));
        i = i + 1;
    }
    r
}

/// A copy of `v`.
pub fn copy_of(v: &Vec<char>) -> (r: Vec<char>)
    ensures
        r@ == v@,
{
    slice_of(v, 0, v.len())
}

/// Whether `a` and `b` hold the same characters.
pub fn same_text(a: &Vec<char>, b: &Vec<char>) -> (r: bool)
    ensures
        r == (a@ == b@),
{
    if a.len() != b.len() {
        return false;
    }
    let n = a.len();
    for i in 0..n
        invariant
            n == a.len() == b.len(),
            forall|k: int| 0 <= k < i ==> a@[k] == b@[k],
    {
        if a[i] != b[i] {
            return false;
        }
    }
    assert(a@ =~= b@);
    true
}

/// Whether `v` holds exactly the characters of `s`.
pub fn text_is(v: &Vec<char>, s: &str) -> (r: bool)
    ensures
        r == (v@ == s@),
{
    let w = chars_of(s);
    same_text(v, &w)
}

/// Whether `v` begins with the characters of `p`.
pub fn starts_with(v: &Vec<char>, p: &str) -> (r: bool)
    ensures
        r == starts_with_text(v@, p@),
{
    let w = chars_of(p);
    if w.len() > v.len() {
        return false;
    }
    let n = w.len();
    for i in 0..n
        invariant
            n == w.len() <= v.len(),
            w@ == p@,
            forall|k: int| 0 <= k < i ==> v@[k] == w@[k],
    {
        if v[i] != w[i] {
            assert(v@.subrange(0, n as int)[i as int] != w@[i as int]);
            return false;
        }
    }
    assert(v@.subrange(0, n as int) =~= w@);
    true
}

/// The first position of `c` in `v`.
pub fn find_char(v: &Vec<char>, c: char) -> (r: Option<usize>)
    ensures
        r matches Some(i) ==> find_text(v@, c) == Some(i as int),
        r is None ==> find_text(v@, c) is None,
{
    let n = v.len();
    let mut i: usize = 0;
    while i < n
        invariant
            n == v.len(),
            i <= n,
            find_text(v@, c) == find_from(v@, c, i as int),
        decreases n - i,
    {
        if v[i] == c {
            return Some(i);
        }
        i = i + 1;
    }
    None
}

proof fn lemma_trim_start(s: Seq<char>, lo: int)
    requires
        0 <= lo <= s.len(),
        forall|k: int| 0 <= k < lo ==> is_space(#[trigger] s[k]),
        lo == s.len() || !is_space(s[lo]),
    ensures
        trim_start_text(s) == s.subrange(lo, s.len() as int),
    decreases lo,
{
    if lo == 0 {
        assert(s.subrange(0, s.len() as int) =~= s);
    } else {
        let t = s.drop_first();
        assert forall|k: int| 0 <= k < lo - 1 implies is_space(#[trigger] t[k]) by {
            assert(t[k] == s[k + 1]);
        }
        assert(lo - 1 == t.len() || t[lo - 1] == s[lo]);
        lemma_trim_start(t, lo - 1);
        assert(t.subrange(lo - 1, t.len() as int) =~= s.subrange(lo, s.len() as int));
    }
}

proof fn lemma_trim_end(s: Seq<char>, hi: int)
    requires
        0 <= hi <= s.len(),
        forall|k: int| hi <= k < s.len() ==> is_space(#[trigger] s[k]),
        hi == 0 || !is_space(s[hi - 1]),
    ensures
        trim_end_text(s) == s.subrange(0, hi),
    decreases s.len() - hi,
{
    if hi == s.len() {
        assert(s.subrange(0, hi) =~= s);
    } else {
        let t = s.drop_last();
        assert(is_space(s[s.len() - 1]));
        assert forall|k: int| hi <= k < t.len() implies is_space(#[trigger] t[k]) by {
            assert(t[k] == s[k]);
        }
        lemma_trim_end(t, hi);
        assert(t.subrange(0, hi) =~= s.subrange(0, hi));
    }
}

/// `v` with leading and trailing white space removed.
pub fn trim(v: &Vec<char>) -> (r: Vec<char>)
    ensures
        r@ == trim_text(v@),
{
    let n = v.len();
    let mut lo: usize = 0;
    while lo < n && is_space_char(v[lo])
        invariant
            n == v.len(),
            lo <= n,
            forall|k: int| 0 <= k < lo ==> is_space(#[trigger] v@[k]),
        decreases n - lo,
    {
        lo = lo + 1;
    }
    proof {
        lemma_trim_start(v@, lo as int);
    }
    let t = slice_of(v, lo, n);
    let m = t.len();
    let mut hi: usize = m;
    while hi > 0 && is_space_char(t[hi - 1])
        invariant
            m == t.len(),
            hi <= m,
            forall|k: int| hi <= k < m ==> is_space(#[trigger] t@[k]),
        decreases hi,
    {
        hi = hi - 1;
    }
    proof {
        lemma_trim_end(t@, hi as int);
    }
    slice_of(&t, 0, hi)
}

/// Splitting always gives at least one piece.
pub proof fn lemma_split_text_nonempty(s: Seq<char>, sep: char)
    ensures
        split_text(s, sep).len() >= 1,
    decreases s.len(),
{
    if s.len() > 0 {
        lemma_split_text_nonempty(s.drop_last(), sep);
    }
}

/// The views of a vector of character vectors.
pub open spec fn texts_of(v: Seq<Vec<char>>) -> Seq<Seq<char>> {
    v.map_values(|w: Vec<char>| w@)
}

/// The pieces of `v` between occurrences of `sep`.
pub fn split(v: &Vec<char>, sep: char) -> (r: Vec<Vec<char>>)
    ensures
        texts_of(r@) == split_text(v@, sep),
        r.len() >= 1,
{
    let n = v.len();
    let mut pieces: Vec<Vec<char>> = Vec::new();
    let mut cur: Vec<char> = Vec::new();
    for i in 0..n
        invariant
            n == v.len(),
            texts_of(pieces@).push(cur@) == split_text(v@.take(i as int), sep),
    {
        let ghost before = v@.take(i as int);
        proof {
            assert(v@.take(i + 1).drop_last() =~= before);
            lemma_split_text_nonempty(before, sep);
        }
        let c = v[i];
        if c == sep {
            let done = cur;
            pieces.push(done);
            cur = Vec::new();
            assert(texts_of(pieces@).push(cur@) =~= split_text(v@.take(i + 1), sep));
        } else {
            cur.push(c);
            assert(texts_of(pieces@).push(cur@) =~= split_text(v@.take(i + 1), sep));
        }
    }
    assert(v@.take(n as int) =~= v@);
    let last = cur;
    pieces.push(last);
    pieces
}

/// The maximal runs of non-white-space characters of `v`.
pub fn words(v: &Vec<char>) -> (r: Vec<Vec<char>>)
    ensures
        texts_of(r@) == words_of(v@),
{
    let n = v.len();
    let mut done: Vec<Vec<char>> = Vec::new();
    let mut cur: Vec<char> = Vec::new();
    for i in 0..n
        invariant
            n == v.len(),
            cur@.len() == 0 ==> texts_of(done@) == words_of(v@.take(i as int)),
            cur@.len() == 0 ==> (i == 0 || is_space(v@[i - 1])),
            cur@.len() > 0 ==> texts_of(done@).push(cur@) == words_of(v@.take(i as int)),
            cur@.len() > 0 ==> i > 0 && !is_space(v@[i - 1]),
    {
        let ghost before = v@.take(i as int);
        proof {
            assert(v@.take(i + 1).drop_last() =~= before);
        }
        let c = v[i];
        if is_space_char(c) {
            if cur.len() > 0 {
                let w = cur;
                done.push(w);
                cur = Vec::new();
            }
            assert(texts_of(done@) =~= words_of(v@.take(i + 1)));
        } else {
            let ghost old_cur = cur@;
            let ghost s1 = v@.take(i + 1);
            assert(s1.last() == c);
            assert(s1.drop_last() == before);
            if cur.len() > 0 {
                assert(s1[s1.len() - 2] == v@[i - 1]);
                assert(words_of(before) == texts_of(done@).push(old_cur));
                assert(words_of(s1) == words_of(before).update(
                    words_of(before).len() - 1,
                    words_of(before).last().push(c),
                ));
            } else {
                assert(i == 0 || s1[s1.len() - 2] == v@[i - 1]);
                assert(words_of(s1) == words_of(before).push(seq![c]));
            }
            cur.push(c);
            assert(cur@ == old_cur.push(c));
            proof {
            if old_cur.len() > 0 {
                let rest = texts_of(done@).push(old_cur);
                assert(rest.last() == old_cur);
                assert(texts_of(done@).push(cur@) =~= rest.update(rest.len() - 1, old_cur.push(c)));
            } else {
                assert(old_cur.push(c) =~= seq![c]);
                assert(texts_of(done@).push(cur@) =~= texts_of(done@).push(seq![c]));
            }
            }
        }
    }
    assert(v@.take(n as int) =~= v@);
    if cur.len() > 0 {
        let w = cur;
        done.push(w);
    }
    done
}

/// The decimal digit character for `d`.
fn digit_to_char(d: u64) -> (c: char)
    requires
        d < 10,
    ensures
        c == digit_char(d as nat),
{
    if d == 0 {
        '0'
    } else if d == 1 {
        '1'
    } else if d == 2 {
        '2'
    } else if d == 3 {
        '3'
    } else if d == 4 {
        '4'
    } else if d == 5 {
        '5'
    } else if d == 6 {
        '6'
    } else if d == 7 {
        '7'
    } else if d == 8 {
        '8'
    } else {
        '9'
    }
}

/// The decimal representation of `n`.
pub fn nat_chars(n: u64) -> (v: Vec<char>)
    ensures
        v@ == nat_text(n as nat),
    decreases n,
{
    if n < 10 {
        let mut v: Vec<char> = Vec::new();
        v.push(digit_to_char(n));
        v
    } else {
        let mut v = nat_chars(n / 10);
        v.push(digit_to_char(n % 10));
        v
    }
}

/// The decimal representation of `i`, with `-` when negative.
pub fn int_chars(i: i64) -> (v: Vec<char>)
    ensures
        v@ == int_text(i as int),
{
    if i < 0 {
        let m: u64 = if i == i64::MIN {
            9223372036854775808u64
        } else {
            (-i) as u64
        };
        let d = nat_chars(m);
        let mut v: Vec<char> = Vec::new();
        v.push('-');
        push_all(&mut v, &d);
        v
    } else {
        nat_chars(i as u64)
    }
}

/// The value of the digit `c`, when it is one.
pub fn digit_of(c: char) -> (r: Option<i32>)
    ensures
        r matches Some(d) ==> is_digit(c) && d == digit_value(c),
        r is None ==> !is_digit(c),
{
    if '0' <= c && c <= '9' {
        Some((c as u32 - '0' as u32) as i32)
    } else {
        None
    }
}

/// `str::parse::<i32>` on the characters of `v`.
pub fn parse_i32(v: &Vec<char>) -> (r: Result<i32, IntError>)
    ensures
        match i32_of_text(v@) {
            Ok(x) => r == Ok::<i32, IntError>(x as i32),
            Err(e) => r == Err::<i32, IntError>(e),
        },
{
    proof {
        lemma_i32_of_text_range(v@);
    }
    let n = v.len();
    if n == 0 {
        return Err(IntError::Empty);
    }
    if (v[0] == '+' || v[0] == '-') && n == 1 {
        return Err(IntError::InvalidDigit);
    }
    let negative = v[0] == '-';
    let mut i: usize = if v[0] == '+' || v[0] == '-' {
        1
    } else {
        0
    };
    let mut acc: i32 = 0;
    let ghost target = i32_of_text(v@);
    if negative {
        assert(target == scan_down(v@, i as int, acc as int));
        while i < n
            invariant
                n == v.len(),
                i <= n,
                i32::MIN <= acc <= 0,
                target == i32_of_text(v@),
                target == scan_down(v@, i as int, acc as int),
            decreases n - i,
        {
            match digit_of(v[i]) {
                None => {
                    return Err(IntError::InvalidDigit);
                },
                Some(d) => {
                    let next: i64 = acc as i64 * 10 - d as i64;
                    if next < i32::MIN as i64 {
                        return Err(IntError::NegOverflow);
                    }
                    acc = next as i32;
                },
            }
            i = i + 1;
        }
        Ok(acc)
    } else {
        assert(target == scan_up(v@, i as int, acc as int));
        while i < n
            invariant
                n == v.len(),
                i <= n,
                0 <= acc <= i32::MAX,
                target == i32_of_text(v@),
                target == scan_up(v@, i as int, acc as int),
            decreases n - i,
        {
            match digit_of(v[i]) {
                None => {
                    return Err(IntError::InvalidDigit);
                },
                Some(d) => {
                    let next: i64 = acc as i64 * 10 + d as i64;
                    if next > i32::MAX as i64 {
                        return Err(IntError::PosOverflow);
                    }
                    acc = next as i32;
                },
            }
            i = i + 1;
        }
        Ok(acc)
    }
}

/// The characters std prints for `e`.
pub fn int_error_chars(e: IntError) -> (v: Vec<char>)
    ensures
        v@ == int_error_text(e),
{
    match e {
        IntError::Empty => chars_of("cannot parse integer from empty string"),
        IntError::InvalidDigit => chars_of("invalid digit found in string"),
        IntError::PosOverflow => chars_of("number too large to fit in target type"),
        IntError::NegOverflow => chars_of("number too small to fit in target type"),
    }
}

} // verus!
