//! Character-level text operations on which the rest of the library is specified.

use vstd::prelude::*;

verus! {

/// Copies the characters of `s` into a vector.
pub fn chars_of(s: &str) -> (r: Vec<char>)
    ensures
        r@ == s@,
{
    let mut r: Vec<char> = Vec::new();
    for c in it: s.chars()
        invariant
            r@ == it.seq().take(it.index() as int),
    {
        r.push(c);
    }
    r
}

/// Builds a `String` from a sequence of characters.
///
/// Trusted: `FromIterator<&char> for String` appends each character in order,
/// as std documents; nothing else is claimed.
#[verifier::external_body]
pub(crate) fn string_of(cs: &[char]) -> (r: String)
    ensures
        r@ == cs@,
{
    cs.iter().collect()
}

/// A `String` holding the characters of `s`.
pub fn owned(s: &str) -> (r: String)
    ensures
        r@ == s@,
{
    s.to_owned()
}

/// The characters with the Unicode `White_Space` property, which is what
/// `char::is_whitespace` tests.
pub open spec fn is_space(c: char) -> bool {
    let u = c as u32;
    ||| 0x09 <= u <= 0x0d
    ||| u == 0x20
    ||| u == 0x85
    ||| u == 0xa0
    ||| u == 0x1680
    ||| 0x2000 <= u <= 0x200a
    ||| u == 0x2028
    ||| u == 0x2029
    ||| u == 0x202f
    ||| u == 0x205f
    ||| u == 0x3000
}

/// `char::is_whitespace`.
pub fn is_space_char(c: char) -> (b: bool)
    ensures
        b == is_space(c),
{
    let u = c as u32;
    (0x09 <= u && u <= 0x0d) || u == 0x20 || u == 0x85 || u == 0xa0 || u == 0x1680 || (0x2000 <= u
        && u <= 0x200a) || u == 0x2028 || u == 0x2029 || u == 0x202f || u == 0x205f || u == 0x3000
}

/// `s` without its leading white space.
pub open spec fn trim_front(s: Seq<char>) -> Seq<char>
    decreases s.len(),
{
    if s.len() > 0 && is_space(s[0]) {
        trim_front(s.drop_first())
    } else {
        s
    }
}

/// `s` without its trailing white space.
pub open spec fn trim_back(s: Seq<char>) -> Seq<char>
    decreases s.len(),
{
    if s.len() > 0 && is_space(s.last()) {
        trim_back(s.drop_last())
    } else {
        s
    }
}

/// `s` without leading and trailing white space, as `str::trim` gives it.
pub open spec fn trimmed(s: Seq<char>) -> Seq<char> {
    trim_back(trim_front(s))
}

proof fn lemma_trim_front_skip(s: Seq<char>, i: int)
    requires
        0 <= i <= s.len(),
        forall|k: int| 0 <= k < i ==> is_space(#[trigger] s[k]),
    ensures
        trim_front(s) == trim_front(s.subrange(i, s.len() as int)),
    decreases i,
{
    if i > 0 {
        assert(s.drop_first().subrange(i - 1, s.drop_first().len() as int) =~= s.subrange(
            i,
            s.len() as int,
        ));
        lemma_trim_front_skip(s.drop_first(), i - 1);
    } else {
        assert(s.subrange(0, s.len() as int) =~= s);
    }
}

proof fn lemma_trim_back_take(s: Seq<char>, j: int)
    requires
        0 <= j <= s.len(),
        forall|k: int| j <= k < s.len() ==> is_space(#[trigger] s[k]),
    ensures
        trim_back(s) == trim_back(s.subrange(0, j)),
    decreases s.len() - j,
{
    if j < s.len() {
        assert(s.drop_last().subrange(0, j) =~= s.subrange(0, j));
        lemma_trim_back_take(s.drop_last(), j);
    } else {
        assert(s.subrange(0, s.len() as int) =~= s);
    }
}

/// Positions where `s` stops being blank at its front and its back.
fn trim_bounds(s: &[char]) -> (r: (usize, usize))
    ensures
        r.0 <= r.1 <= s@.len(),
        trimmed(s@) == s@.subrange(r.0 as int, r.1 as int),
{
    let mut i: usize = 0;
    while i < s.len() && is_space_char(s[i])
        invariant
            i <= s@.len(),
            forall|k: int| 0 <= k < i ==> is_space(#[trigger] s@[k]),
        decreases s@.len() - i,
    {
        i = i + 1;
    }
    proof {
        lemma_trim_front_skip(s@, i as int);
    }
    let ghost front = s@.subrange(i as int, s@.len() as int);
    assert(trim_front(front) == front);
    let mut j: usize = s.len();
    while j > i && is_space_char(s[j - 1])
        invariant
            i <= j <= s@.len(),
            forall|k: int| j <= k < s@.len() ==> is_space(#[trigger] s@[k]),
        decreases j,
    {
        j = j - 1;
    }
    proof {
        assert forall|k: int| j - i <= k < front.len() implies is_space(#[trigger] front[k]) by {
            assert(front[k] == s@[k + i]);
        }
        lemma_trim_back_take(front, j - i);
        assert(front.subrange(0, j - i) =~= s@.subrange(i as int, j as int));
    }
    (i, j)
}

/// `str::trim` on a character sequence.
pub fn trim(s: &[char]) -> (r: Vec<char>)
    ensures
        r@ == trimmed(s@),
{
    let (i, j) = trim_bounds(s);
    slice_range(s, i, j)
}

/// A copy of `s[from..to]`.
pub fn slice_range(s: &[char], from: usize, to: usize) -> (r: Vec<char>)
    requires
        from <= to <= s@.len(),
    ensures
        r@ == s@.subrange(from as int, to as int),
{
    let mut r: Vec<char> = Vec::new();
    let mut k = from;
    while k < to
        invariant
            from <= k <= to <= s@.len(),
            r@ == s@.subrange(from as int, k as int),
        decreases to - k,
    {
        r.push(s[k]);
        k = k + 1;
    }
    r
}


/// Whether `needle` occurs in `hay` starting at position `i`.
pub open spec fn occurs_at(hay: Seq<char>, needle: Seq<char>, i: int) -> bool {
    0 <= i && i + needle.len() <= hay.len() && hay.subrange(i, i + needle.len()) == needle
}

/// Whether `needle` occurs anywhere in `hay` (`str::contains`).
pub open spec fn has_infix(hay: Seq<char>, needle: Seq<char>) -> bool {
    exists|i: int| occurs_at(hay, needle, i)
}

/// Whether `hay` begins with `prefix` (`str::starts_with`).
pub open spec fn has_prefix(hay: Seq<char>, prefix: Seq<char>) -> bool {
    occurs_at(hay, prefix, 0)
}

/// Whether `hay` ends with `suffix` (`str::ends_with`).
pub open spec fn has_suffix(hay: Seq<char>, suffix: Seq<char>) -> bool {
    occurs_at(hay, suffix, hay.len() - suffix.len())
}

/// Tests `occurs_at` for one position.
pub fn matches_at(hay: &[char], needle: &[char], i: usize) -> (b: bool)
    requires
        i <= hay@.len(),
    ensures
        b == occurs_at(hay@, needle@, i as int),
{
    if needle.len() > hay.len() - i {
        return false;
    }
    let mut k: usize = 0;
    while k < needle.len()
        invariant
            i <= hay@.len(),
            i + needle.len() <= hay.len(),
            k <= needle@.len(),
            forall|m: int| 0 <= m < k ==> hay@[i + m] == needle@[m],
        decreases needle@.len() - k,
    {
        if hay[i + k] != needle[k] {
            assert(hay@.subrange(i as int, i + needle@.len())[k as int] != needle@[k as int]);
            return false;
        }
        k = k + 1;
    }
    assert(hay@.subrange(i as int, i + needle@.len()) =~= needle@);
    true
}

/// `str::contains` on character sequences.
pub fn contains(hay: &[char], needle: &[char]) -> (b: bool)
    ensures
        b == has_infix(hay@, needle@),
{
    let mut i: usize = 0;
    loop
        invariant
            i <= hay@.len(),
            forall|m: int| 0 <= m < i ==> !occurs_at(hay@, needle@, m),
        decreases hay@.len() - i,
    {
        if matches_at(hay, needle, i) {
            return true;
        }
        if i == hay.len() {
            assert forall|m: int| !occurs_at(hay@, needle@, m) by {
                if m > hay@.len() as int {
                    assert(!(m + needle@.len() <= hay@.len()));
                }
            }
            return false;
        }
        i = i + 1;
    }
}

/// `str::starts_with` on character sequences.
pub fn starts_with(hay: &[char], prefix: &[char]) -> (b: bool)
    ensures
        b == has_prefix(hay@, prefix@),
{
    matches_at(hay, prefix, 0)
}

/// `str::ends_with` on character sequences.
pub fn ends_with(hay: &[char], suffix: &[char]) -> (b: bool)
    ensures
        b == has_suffix(hay@, suffix@),
{
    if suffix.len() > hay.len() {
        false
    } else {
        matches_at(hay, suffix, hay.len() - suffix.len())
    }
}

/// The pieces of `s` between occurrences of `sep`, as `str::split` with a
/// character pattern gives them: one more piece than there are separators.
pub open spec fn split_on(s: Seq<char>, sep: char) -> Seq<Seq<char>>
    decreases s.len(),
{
    if s.len() == 0 {
        seq![Seq::<char>::empty()]
    } else {
        let before = split_on(s.drop_last(), sep);
        if s.last() == sep {
            before.push(Seq::<char>::empty())
        } else {
            before.update(before.len() - 1, before.last().push(s.last()))
        }
    }
}

/// The views of a vector of character vectors.
pub open spec fn views(v: Seq<Vec<char>>) -> Seq<Seq<char>> {
    v.map_values(|x: Vec<char>| x@)
}

pub proof fn lemma_split_on_nonempty(s: Seq<char>, sep: char)
    ensures
        split_on(s, sep).len() >= 1,
    decreases s.len(),
{
    if s.len() > 0 {
        lemma_split_on_nonempty(s.drop_last(), sep);
    }
}

/// `str::split` with a character separator.
pub fn split(s: &[char], sep: char) -> (r: Vec<Vec<char>>)
    ensures
        views(r@) == split_on(s@, sep),
{
    let mut done: Vec<Vec<char>> = Vec::new();
    let mut cur: Vec<char> = Vec::new();
    let mut i: usize = 0;
    while i < s.len()
        invariant
            i <= s@.len(),
            views(done@).push(cur@) == split_on(s@.take(i as int), sep),
        decreases s@.len() - i,
    {
        proof {
            lemma_split_on_nonempty(s@.take(i as int), sep);
            assert(s@.take(i + 1).drop_last() =~= s@.take(i as int));
        }
        let c = s[i];
        if c == sep {
            let ghost before = views(done@);
            let piece = cur;
            done.push(piece);
            cur = Vec::new();
            assert(views(done@) =~= before.push(piece@));
        } else {
            let ghost before = views(done@);
            cur.push(c);
            assert(before.push(cur@) =~= split_on(s@.take(i as int), sep).update(
                before.len() as int,
                split_on(s@.take(i as int), sep).last().push(c),
            ));
        }
        i = i + 1;
    }
    assert(s@.take(s@.len() as int) =~= s@);
    let ghost before = views(done@);
    let ghost last = cur@;
    done.push(cur);
    assert(views(done@) =~= before.push(last));
    done
}


/// A line without the carriage return that ends it, if any.
pub open spec fn strip_cr(l: Seq<char>) -> Seq<char> {
    if l.len() > 0 && l.last() == '\r' {
        l.drop_last()
    } else {
        l
    }
}

/// The lines of `s` as `str::lines` yields them: split at `\n`, each line
/// that a `\n` ends loses one `\r` before it, and a final empty piece after
/// the last `\n` is not a line.
pub open spec fn lines_of(s: Seq<char>) -> Seq<Seq<char>> {
    let ps = split_on(s, '\n');
    let body = ps.drop_last().map_values(|l: Seq<char>| strip_cr(l));
    if ps.last().len() == 0 {
        body
    } else {
        body.push(ps.last())
    }
}

/// `parts` joined with `sep` between each two of them (`[T]::join`).
pub open spec fn join(parts: Seq<Seq<char>>, sep: Seq<char>) -> Seq<char>
    decreases parts.len(),
{
    if parts.len() == 0 {
        Seq::<char>::empty()
    } else if parts.len() == 1 {
        parts[0]
    } else {
        join(parts.drop_last(), sep) + sep + parts.last()
    }
}

/// Drops one trailing `\r` from a line.
fn strip_cr_exec(l: Vec<char>) -> (r: Vec<char>)
    ensures
        r@ == strip_cr(l@),
{
    let mut l = l;
    if l.len() > 0 && l[l.len() - 1] == '\r' {
        l.pop();
    }
    l
}

/// `str::lines` on a character sequence.
pub fn lines(s: &[char]) -> (r: Vec<Vec<char>>)
    ensures
        views(r@) == lines_of(s@),
{
    let pieces = split(s, '\n');
    proof {
        lemma_split_on_nonempty(s@, '\n');
    }
    let n = pieces.len();
    let ghost ps = views(pieces@);
    let mut r: Vec<Vec<char>> = Vec::new();
    let mut i: usize = 0;
    while i + 1 < n
        invariant
            n == pieces@.len(),
            n >= 1,
            ps == views(pieces@),
            ps == split_on(s@, '\n'),
            i + 1 <= n,
            views(r@) == ps.take(i as int).map_values(|l: Seq<char>| strip_cr(l)),
        decreases n - i,
    {
        let ghost before = views(r@);
        let line = strip_cr_exec(pieces[i].clone());
        r.push(line);
        assert(views(r@) =~= ps.take(i + 1).map_values(|l: Seq<char>| strip_cr(l))) by {
            assert(views(r@) =~= before.push(strip_cr(ps[i as int])));
        }
        i = i + 1;
    }
    assert(ps.take(i as int) =~= ps.drop_last());
    let last = pieces[n - 1].clone();
    if last.len() > 0 {
        let ghost before = views(r@);
        let ghost lv = last@;
        r.push(last);
        assert(views(r@) =~= before.push(lv));
    }
    r
}

/// `[T]::join` with a separator, on character sequences.
pub fn join_exec(parts: &Vec<Vec<char>>, sep: &[char]) -> (r: Vec<char>)
    ensures
        r@ == join(views(parts@), sep@),
{
    let ghost ps = views(parts@);
    let mut r: Vec<char> = Vec::new();
    let mut i: usize = 0;
    while i < parts.len()
        invariant
            i <= parts@.len(),
            ps == views(parts@),
            r@ == join(ps.take(i as int), sep@),
        decreases parts@.len() - i,
    {
        assert(ps.take(i + 1).drop_last() =~= ps.take(i as int));
        if i > 0 {
            append_chars(&mut r, sep);
        }
        append_chars(&mut r, parts[i].as_slice());
        i = i + 1;
    }
    assert(ps.take(parts@.len() as int) =~= ps);
    r
}

/// Appends `tail` to `v`.
pub fn append_chars(v: &mut Vec<char>, tail: &[char])
    ensures
        final(v)@ == old(v)@ + tail@,
{
    let mut k: usize = 0;
    let ghost start = v@;
    while k < tail.len()
        invariant
            k <= tail@.len(),
            v@ == start + tail@.take(k as int),
        decreases tail@.len() - k,
    {
        v.push(tail[k]);
        k = k + 1;
        assert(v@ =~= start + tail@.take(k as int));
    }
    assert(tail@.take(tail@.len() as int) =~= tail@);
}

/// `s` with every occurrence of `needle` taken out, scanning from the left
/// and skipping each occurrence whole (`str::replace(needle, "")`).
pub open spec fn without_all(s: Seq<char>, needle: Seq<char>) -> Seq<char>
    decreases s.len(),
{
    if needle.len() == 0 || s.len() == 0 {
        s
    } else if has_prefix(s, needle) {
        without_all(s.subrange(needle.len() as int, s.len() as int), needle)
    } else {
        seq![s[0]] + without_all(s.drop_first(), needle)
    }
}

/// Takes every occurrence of `needle` out of `hay`.
pub fn remove_all(hay: &[char], needle: &[char]) -> (r: Vec<char>)
    ensures
        r@ == without_all(hay@, needle@),
{
    let mut out: Vec<char> = Vec::new();
    if needle.len() == 0 {
        append_chars(&mut out, hay);
        return out;
    }
    let mut i: usize = 0;
    assert(hay@.subrange(0, hay@.len() as int) =~= hay@);
    assert(out@ + without_all(hay@, needle@) =~= without_all(hay@, needle@));
    while i < hay.len()
        invariant
            i <= hay@.len(),
            needle@.len() > 0,
            out@ + without_all(hay@.subrange(i as int, hay@.len() as int), needle@) == without_all(
                hay@,
                needle@,
            ),
        decreases hay@.len() - i,
    {
        let ghost rest = hay@.subrange(i as int, hay@.len() as int);
        if matches_at(hay, needle, i) {
            assert(rest.subrange(0, needle@.len() as int) =~= needle@);
            assert(rest.subrange(needle@.len() as int, rest.len() as int) =~= hay@.subrange(
                i + needle@.len(),
                hay@.len() as int,
            ));
            i = i + needle.len();
        } else {
            assert(!has_prefix(rest, needle@)) by {
                if has_prefix(rest, needle@) {
                    assert(hay@.subrange(i as int, i + needle@.len()) =~= rest.subrange(
                        0,
                        needle@.len() as int,
                    ));
                }
            }
            assert(rest.drop_first() =~= hay@.subrange(i + 1, hay@.len() as int));
            let ghost before = out@;
            out.push(hay[i]);
            assert(out@ + without_all(rest.drop_first(), needle@) =~= before + (seq![rest[0]]
                + without_all(rest.drop_first(), needle@)));
            i = i + 1;
        }
    }
    assert(out@ + without_all(hay@.subrange(i as int, hay@.len() as int), needle@) =~= out@);
    out
}

/// The decimal digits, in order.
pub open spec fn digit_chars() -> Seq<char> {
    seq!['0', '1', '2', '3', '4', '5', '6', '7', '8', '9']
}

/// The decimal notation of `n`, without leading zeros (as `Display` for
/// unsigned integers writes it).
pub open spec fn decimal(n: nat) -> Seq<char>
    decreases n,
{
    if n < 10 {
        seq![digit_chars()[n as int]]
    } else {
        decimal(n / 10).push(digit_chars()[(n % 10) as int])
    }
}

fn digit_char(d: u64) -> (c: char)
    requires
        d < 10,
    ensures
        c == digit_chars()[d as int],
{
    match d {
        0 => '0',
        1 => '1',
        2 => '2',
        3 => '3',
        4 => '4',
        5 => '5',
        6 => '6',
        7 => '7',
        8 => '8',
        _ => '9',
    }
}

/// The decimal notation of `n`.
pub fn decimal_chars(n: u64) -> (r: Vec<char>)
    ensures
        r@ == decimal(n as nat),
    decreases n,
{
    if n < 10 {
        let mut v: Vec<char> = Vec::new();
        v.push(digit_char(n));
        assert(v@ =~= decimal(n as nat));
        v
    } else {
        let mut v = decimal_chars(n / 10);
        v.push(digit_char(n % 10));
        v
    }
}

/// Whether `c` is one of the ASCII digits `0` to `9`.
pub open spec fn is_digit(c: char) -> bool {
    48 <= (c as u32) <= 57
}

/// The value of the digit sequence `s`, read in base ten.
pub open spec fn digits_value(s: Seq<char>) -> nat
    decreases s.len(),
{
    if s.len() == 0 {
        0
    } else {
        digits_value(s.drop_last()) * 10 + ((s.last() as u32) - 48) as nat
    }
}

/// `s` without one leading `+`, if it has one.
pub open spec fn unsigned_body(s: Seq<char>) -> Seq<char> {
    if s.len() > 0 && s[0] == '+' {
        s.drop_first()
    } else {
        s
    }
}

/// Whether every character of `s` is an ASCII digit.
pub open spec fn all_digits(s: Seq<char>) -> bool {
    forall|i: int| 0 <= i < s.len() ==> is_digit(#[trigger] s[i])
}

/// What `str::parse::<u32>` gives: an optional `+`, then one or more ASCII
/// digits whose value fits in a `u32`; anything else is an error.
pub open spec fn parsed_u32(s: Seq<char>) -> Option<u32> {
    let body = unsigned_body(s);
    if body.len() > 0 && all_digits(body) && digits_value(body) <= u32::MAX {
        Some(digits_value(body) as u32)
    } else {
        None
    }
}

/// `str::parse::<u32>`, with the error reduced to `None`.
pub fn parse_u32(s: &[char]) -> (r: Option<u32>)
    ensures
        r == parsed_u32(s@),
{
    let start: usize = if s.len() > 0 && s[0] == '+' {
        1
    } else {
        0
    };
    let ghost body = unsigned_body(s@);
    assert(body =~= s@.subrange(start as int, s@.len() as int));
    if start >= s.len() {
        return None;
    }
    let mut acc: u64 = 0;
    let mut over = false;
    let mut i: usize = start;
    while i < s.len()
        invariant
            start <= i <= s@.len(),
            body == unsigned_body(s@),
            body == s@.subrange(start as int, s@.len() as int),
            forall|k: int| 0 <= k < i - start ==> is_digit(#[trigger] body[k]),
            !over ==> acc == digits_value(body.take(i - start)),
            !over ==> acc <= u32::MAX,
            over ==> digits_value(body.take(i - start)) > u32::MAX,
        decreases s@.len() - i,
    {
        let c = s[i];
        let u = c as u32;
        if u < 48 || u > 57 {
            assert(!is_digit(body[i - start]));
            assert(!all_digits(body));
            return None;
        }
        assert(body.take(i - start + 1).drop_last() =~= body.take(i - start));
        assert(body.take(i - start + 1).last() == c);
        if !over {
            acc = acc * 10 + (u - 48) as u64;
            if acc > 0xffff_ffff {
                over = true;
            }
        }
        i = i + 1;
    }
    assert(body.take(i - start) =~= body);
    if over {
        None
    } else {
        Some(acc as u32)
    }
}


/// Whether two character sequences are equal.
pub fn same_chars(a: &[char], b: &[char]) -> (r: bool)
    ensures
        r == (a@ == b@),
{
    if a.len() != b.len() {
        return false;
    }
    let mut k: usize = 0;
    while k < a.len()
        invariant
            a@.len() == b@.len(),
            k <= a@.len(),
            forall|m: int| 0 <= m < k ==> a@[m] == b@[m],
        decreases a@.len() - k,
    {
        if a[k] != b[k] {
            return false;
        }
        k = k + 1;
    }
    assert(a@ =~= b@);
    true
}


/// Whether two strings are equal.
pub fn str_eq(a: &str, b: &str) -> (r: bool)
    ensures
        r == (a@ == b@),
{
    let x = chars_of(a);
    let y = chars_of(b);
    same_chars(x.as_slice(), y.as_slice())
}


/// The characters that `String::from_utf8_lossy` decodes from `bytes`
/// (invalid sequences become U+FFFD).
pub uninterp spec fn lossy_utf8(bytes: Seq<u8>) -> Seq<char>;

/// Decodes bytes as UTF-8, replacing invalid sequences.
///
/// Trusted: `String::from_utf8_lossy` is a function of the bytes alone; on
/// valid UTF-8 it returns that text unchanged, as std documents.  What it
/// makes of invalid input is left to the name `lossy_utf8`.
#[verifier::external_body]
pub(crate) fn lossy_string(bytes: &[u8]) -> (r: String)
    ensures
        r@ == lossy_utf8(bytes@),
        vstd::utf8::valid_utf8(bytes@) ==> r@ == vstd::utf8::decode_utf8(bytes@),
{
    String::from_utf8_lossy(bytes).into_owned()
}

/// Whether `s` holds no `c`.
pub open spec fn free_of(s: Seq<char>, c: char) -> bool {
    forall|i: int| 0 <= i < s.len() ==> #[trigger] s[i] != c
}

proof fn lemma_split_single(q: Seq<char>, c: char)
    requires
        free_of(q, c),
    ensures
        split_on(q, c) == seq![q],
    decreases q.len(),
{
    if q.len() > 0 {
        let q0 = q.drop_last();
        assert(free_of(q0, c)) by {
            assert forall|i: int| 0 <= i < q0.len() implies #[trigger] q0[i] != c by {
                assert(q0[i] == q[i]);
            }
        }
        lemma_split_single(q0, c);
        assert(q[q.len() - 1] != c);
        assert(q0.push(q.last()) =~= q);
        assert(seq![q0].update(0, q0.push(q.last())) =~= seq![q]);
    } else {
        assert(q =~= Seq::<char>::empty());
    }
}

proof fn lemma_split_after_sep(p: Seq<char>, q: Seq<char>, c: char)
    requires
        free_of(q, c),
    ensures
        split_on(p + seq![c] + q, c) == split_on(p, c).push(q),
    decreases q.len(),
{
    lemma_split_on_nonempty(p, c);
    if q.len() == 0 {
        assert(q =~= Seq::<char>::empty());
        assert(p + seq![c] + q =~= p.push(c));
        assert((p + seq![c] + q).drop_last() =~= p);
        assert((p + seq![c] + q).last() == c);
    } else {
        let q0 = q.drop_last();
        assert(free_of(q0, c)) by {
            assert forall|i: int| 0 <= i < q0.len() implies #[trigger] q0[i] != c by {
                assert(q0[i] == q[i]);
            }
        }
        lemma_split_after_sep(p, q0, c);
        let whole = p + seq![c] + q;
        assert(whole.drop_last() =~= p + seq![c] + q0);
        assert(whole.last() == q[q.len() - 1]);
        assert(q0.push(q.last()) =~= q);
        assert(split_on(p, c).push(q0).update(
            split_on(p, c).len() as int,
            q0.push(q.last()),
        ) =~= split_on(p, c).push(q));
    }
}

/// Joining lines free of `\n` with `\n` and splitting the result at `\n`
/// gives the lines back.
pub proof fn lemma_split_join(ls: Seq<Seq<char>>)
    requires
        ls.len() >= 1,
        forall|i: int| 0 <= i < ls.len() ==> free_of(#[trigger] ls[i], '\n'),
    ensures
        split_on(join(ls, "\n"@), '\n') == ls,
    decreases ls.len(),
{
    reveal_strlit("\n");
    if ls.len() == 1 {
        lemma_split_single(ls[0], '\n');
        assert(seq![ls[0]] =~= ls);
    } else {
        let init = ls.drop_last();
        assert forall|i: int| 0 <= i < init.len() implies free_of(#[trigger] init[i], '\n') by {
            assert(init[i] == ls[i]);
        }
        lemma_split_join(init);
        assert("\n"@ =~= seq!['\n']);
        assert(free_of(ls[ls.len() - 1], '\n'));
        lemma_split_after_sep(join(init, "\n"@), ls.last(), '\n');
        assert(init.push(ls.last()) =~= ls);
    }
}

/// The pieces of a split hold no separator.
pub proof fn lemma_split_free(s: Seq<char>, c: char)
    ensures
        forall|i: int| 0 <= i < split_on(s, c).len() ==> free_of(#[trigger] split_on(s, c)[i], c),
    decreases s.len(),
{
    if s.len() > 0 {
        lemma_split_free(s.drop_last(), c);
        lemma_split_on_nonempty(s.drop_last(), c);
        let before = split_on(s.drop_last(), c);
        if s.last() != c {
            let grown = before.last().push(s.last());
            assert(free_of(before[before.len() - 1], c));
            assert forall|k: int| 0 <= k < grown.len() implies #[trigger] grown[k] != c by {
                if k < before.last().len() {
                    assert(grown[k] == before.last()[k]);
                }
            }
        }
    }
}

/// The lines of a text hold no `\n`.
pub proof fn lemma_lines_free(s: Seq<char>)
    ensures
        forall|i: int| 0 <= i < lines_of(s).len() ==> free_of(#[trigger] lines_of(s)[i], '\n'),
{
    lemma_split_free(s, '\n');
    lemma_split_on_nonempty(s, '\n');
    let ps = split_on(s, '\n');
    assert forall|i: int| 0 <= i < lines_of(s).len() implies free_of(
        #[trigger] lines_of(s)[i],
        '\n',
    ) by {
        if i < ps.len() - 1 {
            assert(free_of(ps[i], '\n'));
            let l = strip_cr(ps[i]);
            assert(lines_of(s)[i] == l);
            assert forall|k: int| 0 <= k < l.len() implies #[trigger] l[k] != '\n' by {
                assert(l[k] == ps[i][k]);
            }
        } else {
            assert(lines_of(s)[i] == ps[ps.len() - 1]);
        }
    }
}

/// Each part stands whole in the parts joined: `ls[i]` occurs in
/// `join(ls, sep)` at the position returned.
pub proof fn lemma_part_in_join(ls: Seq<Seq<char>>, sep: Seq<char>, i: int) -> (k: int)
    requires
        0 <= i < ls.len(),
    ensures
        0 <= k,
        k + ls[i].len() <= join(ls, sep).len(),
        join(ls, sep).subrange(k, k + ls[i].len()) == ls[i],
    decreases ls.len(),
{
    if ls.len() == 1 {
        assert(join(ls, sep).subrange(0, ls[i].len() as int) =~= ls[i]);
        0
    } else {
        let init = ls.drop_last();
        let front = join(init, sep);
        if i == ls.len() - 1 {
            let k = (front.len() + sep.len()) as int;
            assert(join(ls, sep).subrange(k, k + ls[i].len()) =~= ls[i]);
            k
        } else {
            let k = lemma_part_in_join(init, sep, i);
            assert(init[i] == ls[i]);
            assert(join(ls, sep).subrange(k, k + ls[i].len()) =~= front.subrange(
                k,
                k + ls[i].len(),
            ));
            k
        }
    }
}

/// What occurs in a part of `t` occurs in `t`.
pub proof fn lemma_infix_grows(a: Seq<char>, t: Seq<char>, k: int, x: Seq<char>)
    requires
        0 <= k,
        k + a.len() <= t.len(),
        t.subrange(k, k + a.len()) == a,
        has_infix(a, x),
    ensures
        has_infix(t, x),
{
    let j = choose|j: int| occurs_at(a, x, j);
    assert(t.subrange(k + j, k + j + x.len()) =~= a.subrange(j, j + x.len()));
    assert(occurs_at(t, x, k + j));
}

/// Reading back lines written one per line: joining lines free of `\n`
/// with `\n`, adding a final `\n`, and taking the lines again gives each
/// line back without a trailing `\r`; no lines give one empty line.
pub proof fn lemma_lines_of_written(ls: Seq<Seq<char>>)
    requires
        forall|i: int| 0 <= i < ls.len() ==> free_of(#[trigger] ls[i], '\n'),
    ensures
        lines_of(join(ls, "\n"@) + "\n"@) == (if ls.len() == 0 {
            seq![Seq::<char>::empty()]
        } else {
            ls.map_values(|l: Seq<char>| strip_cr(l))
        }),
{
    reveal_strlit("\n");
    assert("\n"@ =~= seq!['\n']);
    let text = join(ls, "\n"@) + "\n"@;
    if ls.len() == 0 {
        assert(text =~= seq!['\n']);
        assert(text.drop_last() =~= Seq::<char>::empty());
        assert(split_on(Seq::<char>::empty(), '\n') == seq![Seq::<char>::empty()]);
        assert(text.last() == '\n');
        assert(split_on(text, '\n') =~= seq![Seq::<char>::empty(), Seq::<char>::empty()]);
        assert(lines_of(text) =~= seq![Seq::<char>::empty()]);
    } else {
        lemma_split_join(ls);
        assert(text.drop_last() =~= join(ls, "\n"@));
        assert(split_on(text, '\n') == ls.push(Seq::<char>::empty()));
        assert(ls.push(Seq::<char>::empty()).drop_last() =~= ls);
    }
}

/// Dropping a trailing `\r` does not create an infix.
pub proof fn lemma_strip_cr_infix(l: Seq<char>, x: Seq<char>)
    ensures
        has_infix(strip_cr(l), x) ==> has_infix(l, x),
{
    if has_infix(strip_cr(l), x) {
        let i = choose|i: int| occurs_at(strip_cr(l), x, i);
        assert(l.subrange(i, i + x.len()) =~= strip_cr(l).subrange(i, i + x.len()));
        assert(occurs_at(l, x, i));
    }
}

/// What holds of every element of a sequence holds of every element kept
/// by a filter.
pub proof fn lemma_filter_keeps<A>(s: Seq<A>, pred: spec_fn(A) -> bool, q: spec_fn(A) -> bool)
    requires
        forall|i: int| 0 <= i < s.len() ==> q(#[trigger] s[i]),
    ensures
        forall|i: int| 0 <= i < s.filter(pred).len() ==> q(#[trigger] s.filter(pred)[i]),
    decreases s.len(),
{
    reveal_with_fuel(Seq::<_>::filter, 1);
    if s.len() > 0 {
        let init = s.drop_last();
        assert forall|i: int| 0 <= i < init.len() implies q(#[trigger] init[i]) by {
            assert(init[i] == s[i]);
        }
        lemma_filter_keeps(init, pred, q);
        let f = s.filter(pred);
        assert forall|i: int| 0 <= i < f.len() implies q(#[trigger] f[i]) by {
            if i < init.filter(pred).len() {
                assert(f[i] == init.filter(pred)[i]);
            } else {
                assert(f[i] == s.last());
            }
        }
    }
}

/// A filter that keeps every element changes nothing.
pub proof fn lemma_filter_all<A>(s: Seq<A>, pred: spec_fn(A) -> bool)
    requires
        forall|i: int| 0 <= i < s.len() ==> pred(#[trigger] s[i]),
    ensures
        s.filter(pred) == s,
    decreases s.len(),
{
    reveal_with_fuel(Seq::<_>::filter, 1);
    if s.len() > 0 {
        let init = s.drop_last();
        assert forall|i: int| 0 <= i < init.len() implies pred(#[trigger] init[i]) by {
            assert(init[i] == s[i]);
        }
        lemma_filter_all(init, pred);
        assert(pred(s[s.len() - 1]));
        assert(init.push(s.last()) =~= s);
    } else {
        assert(s.filter(pred) =~= s);
    }
}

} // verus!
