use vstd::prelude::*;

verus! {

/// The characters of `s`, in order.
pub fn chars_of(s: &str) -> (v: Vec<char>)
    ensures
        v@ == s@,
{
    let mut v: Vec<char> = Vec::new();
    for c in it: s.chars()
        invariant
            v@ == it.seq().take(it.index() as int),
            it.seq() == s@,
    {
        v.push(c);
    }
    v
}

} // verus!

verus! {

/// The byte offset at which the character with index `i` of `s` starts in
/// the UTF-8 encoding of `s`.
pub open spec fn byte_offset(s: Seq<char>, i: int) -> nat {
    vstd::utf8::encode_utf8(s.take(i)).len()
}

/// UTF-8 encoding distributes over concatenation.
pub proof fn lemma_encode_utf8_concat(a: Seq<char>, b: Seq<char>)
    ensures
        vstd::utf8::encode_utf8(a + b) == vstd::utf8::encode_utf8(a) + vstd::utf8::encode_utf8(b),
    decreases a.len(),
{
    if a.len() == 0 {
        assert(a + b =~= b);
        assert(vstd::utf8::encode_utf8(a) =~= Seq::<u8>::empty());
        assert(vstd::utf8::encode_utf8(a) + vstd::utf8::encode_utf8(b) =~= vstd::utf8::encode_utf8(b));
    } else {
        assert((a + b).drop_first() =~= a.drop_first() + b);
        assert((a + b)[0] == a[0]);
        lemma_encode_utf8_concat(a.drop_first(), b);
        assert(vstd::utf8::encode_utf8(a + b) =~= vstd::utf8::encode_scalar(a[0] as u32) + (
        vstd::utf8::encode_utf8(a.drop_first()) + vstd::utf8::encode_utf8(b)));
    }
}

/// Moving past one more character advances the byte offset by its UTF-8 width,
/// and offsets never pass the length of the whole encoding.
pub proof fn lemma_byte_offset_step(s: Seq<char>, i: int)
    requires
        0 <= i < s.len(),
    ensures
        byte_offset(s, i + 1) == byte_offset(s, i) + vstd::utf8::encode_scalar(s[i] as u32).len(),
        byte_offset(s, i + 1) <= vstd::utf8::encode_utf8(s).len(),
{
    assert(s.take(i + 1) =~= s.take(i) + seq![s[i]]);
    lemma_encode_utf8_concat(s.take(i), seq![s[i]]);
    let t = seq![s[i]];
    assert(t[0] == s[i]);
    assert(t.drop_first() =~= Seq::<char>::empty());
    assert(vstd::utf8::encode_utf8(t.drop_first()) =~= Seq::<u8>::empty());
    assert(vstd::utf8::encode_utf8(t) =~= vstd::utf8::encode_scalar(s[i] as u32));
    assert(s =~= s.take(i + 1) + s.skip(i + 1));
    lemma_encode_utf8_concat(s.take(i + 1), s.skip(i + 1));
}

/// The number of bytes that `c` takes in UTF-8.
pub fn utf8_width(c: char) -> (w: usize)
    ensures
        w == vstd::utf8::encode_scalar(c as u32).len(),
        1 <= w <= 4,
{
    proof {
        vstd::utf8::char_is_scalar(c);
    }
    let v = c as u32;
    if v <= 0x7F {
        1
    } else if v <= 0x7FF {
        2
    } else if v <= 0xFFFF {
        3
    } else {
        4
    }
}

} // verus!

verus! {

/// Builds a `String` from characters.
///
/// Trusted: calls `collect::<String>()` on the characters of `v` (std's
/// `FromIterator<&char> for String`), which the std documentation says
/// concatenates the characters in order; the contract claims exactly that
/// the result holds the characters of `v`.
#[verifier::external_body]
pub(crate) fn string_from_chars(v: &[char]) -> (r: String)
    ensures
        r@ == v@,
{
    v.iter().collect::<String>()
}

/// The lower-case form of a text, as std's `str::to_lowercase` gives it
/// (Unicode lowercase mapping, independent of locale).
pub uninterp spec fn lowercase(s: Seq<char>) -> Seq<char>;

/// Trusted: calls `str::to_lowercase`. Its result depends on the
/// characters of `s` alone; the contract names it `lowercase(s@)` and
/// claims nothing more about it.
#[verifier::external_body]
pub(crate) fn to_lowercase(s: &str) -> (r: String)
    ensures
        r@ == lowercase(s@),
{
    s.to_lowercase()
}

/// Unicode `White_Space`, the characters that std's `char::is_whitespace`
/// accepts.
pub open spec fn is_white(c: char) -> bool {
    ||| '\u{9}' <= c <= '\u{d}'
    ||| c == ' '
    ||| c == '\u{85}'
    ||| c == '\u{a0}'
    ||| c == '\u{1680}'
    ||| '\u{2000}' <= c <= '\u{200a}'
    ||| c == '\u{2028}'
    ||| c == '\u{2029}'
    ||| c == '\u{202f}'
    ||| c == '\u{205f}'
    ||| c == '\u{3000}'
}

pub fn is_whitespace(c: char) -> (b: bool)
    ensures
        b == is_white(c),
{
    ('\u{9}' <= c && c <= '\u{d}') || c == ' ' || c == '\u{85}' || c == '\u{a0}' || c == '\u{1680}'
        || ('\u{2000}' <= c && c <= '\u{200a}') || c == '\u{2028}' || c == '\u{2029}' || c
        == '\u{202f}' || c == '\u{205f}' || c == '\u{3000}'
}

/// The word under construction `cur`, as a list of zero or one words.
pub open spec fn finished(cur: Seq<char>) -> Seq<Seq<char>> {
    if cur.len() == 0 {
        Seq::empty()
    } else {
        seq![cur]
    }
}

/// The maximal runs of non-white characters of `s`, in order, the first
/// of them continuing `cur`.
pub open spec fn words_from(s: Seq<char>, cur: Seq<char>) -> Seq<Seq<char>>
    decreases s.len(),
{
    if s.len() == 0 {
        finished(cur)
    } else if is_white(s[0]) {
        finished(cur) + words_from(s.drop_first(), Seq::empty())
    } else {
        words_from(s.drop_first(), cur.push(s[0]))
    }
}

/// The words of `s`: its maximal runs of non-white characters, in order.
pub open spec fn words(s: Seq<char>) -> Seq<Seq<char>> {
    words_from(s, Seq::empty())
}

/// A word is a non-empty run of characters that are not white space.
pub open spec fn is_word(w: Seq<char>) -> bool {
    w.len() > 0 && forall|i: int| 0 <= i < w.len() ==> !is_white(#[trigger] w[i])
}

proof fn lemma_words_from_are_words(s: Seq<char>, cur: Seq<char>)
    requires
        forall|i: int| 0 <= i < cur.len() ==> !is_white(#[trigger] cur[i]),
    ensures
        forall|k: int| 0 <= k < words_from(s, cur).len() ==> is_word(#[trigger] words_from(s, cur)[k]),
    decreases s.len(),
{
    if cur.len() > 0 {
        assert(finished(cur)[0] == cur);
        assert(is_word(cur));
    }
    if s.len() == 0 {
        assert(words_from(s, cur) == finished(cur));
    } else if is_white(s[0]) {
        lemma_words_from_are_words(s.drop_first(), Seq::empty());
        let f = finished(cur);
        let rest = words_from(s.drop_first(), Seq::empty());
        assert(words_from(s, cur) == f + rest);
        assert forall|k: int| 0 <= k < (f + rest).len() implies is_word(#[trigger] (f + rest)[k]) by {
            if k >= f.len() {
                assert((f + rest)[k] == rest[k - f.len()]);
            }
        }
    } else {
        let next = cur.push(s[0]);
        assert forall|i: int| 0 <= i < next.len() implies !is_white(#[trigger] next[i]) by {
            if i < cur.len() {
                assert(next[i] == cur[i]);
            }
        }
        lemma_words_from_are_words(s.drop_first(), next);
        assert(words_from(s, cur) == words_from(s.drop_first(), next));
    }
}

/// Splitting never yields an empty word nor one holding white space.
pub proof fn law_words_are_words(s: Seq<char>)
    ensures
        forall|k: int| 0 <= k < words(s).len() ==> is_word(#[trigger] words(s)[k]),
{
    lemma_words_from_are_words(s, Seq::empty());
}

/// Splits `s` at white space, as std's `str::split_whitespace` does: the
/// words, in order, none of them empty.
pub fn split_words(s: &str) -> (r: Vec<String>)
    ensures
        r@.len() == words(s@).len(),
        forall|k: int| 0 <= k < r@.len() ==> #[trigger] r@[k]@ == words(s@)[k],
{
    let chars = chars_of(s);
    let ghost t = s@;
    let mut out: Vec<String> = Vec::new();
    let mut cur: Vec<char> = Vec::new();
    let ghost mut done: Seq<Seq<char>> = Seq::empty();
    let mut i: usize = 0;
    proof {
        assert(t.skip(0) =~= t);
        assert(cur@ =~= Seq::<char>::empty());
        assert(done + words_from(t, cur@) =~= words(t));
    }
    while i < chars.len()
        invariant
            chars@ == t,
            t == s@,
            i <= chars.len(),
            out@.len() == done.len(),
            forall|k: int| 0 <= k < out@.len() ==> #[trigger] out@[k]@ == done[k],
            words(t) == done + words_from(t.skip(i as int), cur@),
        decreases chars.len() - i,
    {
        let c = chars[i];
        assert(t.skip(i as int)[0] == c);
        assert(t.skip(i as int).drop_first() =~= t.skip(i + 1));
        if is_whitespace(c) {
            if cur.len() > 0 {
                let w = string_from_chars(cur.as_slice());
                out.push(w);
                proof {
                    assert(done + words_from(t.skip(i as int), cur@) =~= done.push(cur@)
                        + words_from(t.skip(i + 1), Seq::empty()));
                    done = done.push(cur@);
                }
                cur = Vec::new();
            } else {
                proof {
                    assert(finished(cur@) =~= Seq::<Seq<char>>::empty());
                    assert(done + words_from(t.skip(i as int), cur@) =~= done + words_from(
                        t.skip(i + 1),
                        Seq::empty(),
                    ));
                    assert(cur@ =~= Seq::<char>::empty());
                }
            }
        } else {
            cur.push(c);
        }
        i += 1;
    }
    proof {
        assert(t.skip(i as int) =~= Seq::<char>::empty());
    }
    if cur.len() > 0 {
        let w = string_from_chars(cur.as_slice());
        out.push(w);
        proof {
            done = done.push(cur@);
        }
    }
    proof {
        assert(words(t) =~= done);
    }
    out
}

/// `s` without its leading white space.
pub open spec fn trim_start(s: Seq<char>) -> Seq<char>
    decreases s.len(),
{
    if s.len() > 0 && is_white(s[0]) {
        trim_start(s.drop_first())
    } else {
        s
    }
}

/// `s` without its trailing white space.
pub open spec fn trim_end(s: Seq<char>) -> Seq<char>
    decreases s.len(),
{
    if s.len() > 0 && is_white(s.last()) {
        trim_end(s.drop_last())
    } else {
        s
    }
}

/// `s` without leading and trailing white space, as std's `str::trim`.
pub open spec fn trimmed(s: Seq<char>) -> Seq<char> {
    trim_end(trim_start(s))
}

proof fn lemma_trim_start_skip(s: Seq<char>, i: int)
    requires
        0 <= i <= s.len(),
        forall|k: int| 0 <= k < i ==> is_white(#[trigger] s[k]),
    ensures
        trim_start(s) == trim_start(s.skip(i)),
    decreases i,
{
    if i > 0 {
        assert(s.drop_first().skip(i - 1) =~= s.skip(i));
        assert forall|k: int| 0 <= k < i - 1 implies is_white(#[trigger] s.drop_first()[k]) by {
            assert(s.drop_first()[k] == s[k + 1]);
        }
        lemma_trim_start_skip(s.drop_first(), i - 1);
    } else {
        assert(s.skip(0) =~= s);
    }
}

proof fn lemma_trim_end_take(s: Seq<char>, j: int)
    requires
        0 <= j <= s.len(),
        forall|k: int| j <= k < s.len() ==> is_white(#[trigger] s[k]),
    ensures
        trim_end(s) == trim_end(s.take(j)),
    decreases s.len() - j,
{
    if j < s.len() {
        assert(s.drop_last().take(j) =~= s.take(j));
        lemma_trim_end_take(s.drop_last(), j);
    } else {
        assert(s.take(j) =~= s);
    }
}

proof fn lemma_trim_start_shape(s: Seq<char>) -> (i: int)
    ensures
        0 <= i <= s.len(),
        trim_start(s) == s.skip(i),
        forall|k: int| 0 <= k < i ==> is_white(#[trigger] s[k]),
        i < s.len() ==> !is_white(s[i]),
    decreases s.len(),
{
    if s.len() > 0 && is_white(s[0]) {
        let i1 = lemma_trim_start_shape(s.drop_first());
        assert(s.drop_first().skip(i1) =~= s.skip(i1 + 1));
        assert forall|k: int| 0 <= k < i1 + 1 implies is_white(#[trigger] s[k]) by {
            if k > 0 {
                assert(s[k] == s.drop_first()[k - 1]);
            }
        }
        if i1 + 1 < s.len() {
            assert(s[i1 + 1] == s.drop_first()[i1]);
        }
        i1 + 1
    } else {
        assert(s.skip(0) =~= s);
        0
    }
}

proof fn lemma_trim_end_shape(s: Seq<char>) -> (j: int)
    ensures
        0 <= j <= s.len(),
        trim_end(s) == s.take(j),
        forall|k: int| j <= k < s.len() ==> is_white(#[trigger] s[k]),
        j > 0 ==> !is_white(s[j - 1]),
    decreases s.len(),
{
    if s.len() > 0 && is_white(s.last()) {
        let j1 = lemma_trim_end_shape(s.drop_last());
        assert(s.drop_last().take(j1) =~= s.take(j1));
        assert forall|k: int| j1 <= k < s.len() implies is_white(#[trigger] s[k]) by {
            if k < s.len() - 1 {
                assert(s[k] == s.drop_last()[k]);
            }
        }
        if j1 > 0 {
            assert(s[j1 - 1] == s.drop_last()[j1 - 1]);
        }
        j1
    } else {
        assert(s.take(s.len() as int) =~= s);
        s.len() as int
    }
}

/// Trimming takes off exactly the white space at both ends: what is left
/// is an unbroken stretch `s[i..j]` of `s`, everything before and after it
/// is white space, and the stretch itself, where not empty, neither starts
/// nor ends with white space.
pub proof fn law_trim_takes_off_white_ends(s: Seq<char>)
    ensures
        exists|i: int, j: int|
            0 <= i <= j <= s.len() && trimmed(s) == s.subrange(i, j) && (forall|k: int|
                0 <= k < i ==> is_white(#[trigger] s[k])) && (forall|k: int|
                j <= k < s.len() ==> is_white(#[trigger] s[k])),
        trimmed(s).len() > 0 ==> !is_white(trimmed(s)[0]) && !is_white(trimmed(s).last()),
{
    let i = lemma_trim_start_shape(s);
    let t = s.skip(i);
    let j = lemma_trim_end_shape(t);
    assert(trimmed(s) == t.take(j));
    assert(t.take(j) =~= s.subrange(i, i + j));
    assert forall|k: int| i + j <= k < s.len() implies is_white(#[trigger] s[k]) by {
        assert(s[k] == t[k - i]);
    }
    if j > 0 {
        assert(t.take(j)[0] == t[0]);
        assert(t.take(j).last() == t[j - 1]);
    }
}

/// `s` without leading and trailing white space.
pub fn trim(s: &str) -> (r: String)
    ensures
        r@ == trimmed(s@),
{
    let chars = chars_of(s);
    let n = chars.len();
    let mut start: usize = 0;
    while start < n && is_whitespace(chars[start])
        invariant
            chars@ == s@,
            n == chars@.len(),
            start <= n,
            forall|k: int| 0 <= k < start ==> is_white(#[trigger] chars@[k]),
        decreases n - start,
    {
        start += 1;
    }
    proof {
        lemma_trim_start_skip(s@, start as int);
    }
    let ghost rest = s@.skip(start as int);
    let mut end: usize = n;
    while end > start && is_whitespace(chars[end - 1])
        invariant
            chars@ == s@,
            n == chars@.len(),
            start <= end <= n,
            rest == s@.skip(start as int),
            forall|k: int| end - start <= k < rest.len() ==> is_white(#[trigger] rest[k]),
        decreases end - start,
    {
        end -= 1;
    }
    proof {
        lemma_trim_end_take(rest, end - start);
        let kept = rest.take(end - start);
        if start < end {
            assert(!is_white(kept[0]));
            assert(!is_white(kept.last()));
        }
        assert(trim_start(rest) == rest);
        if start == end {
            assert(kept =~= Seq::<char>::empty());
        }
        assert(trim_end(kept) == kept);
        assert(kept =~= chars@.subrange(start as int, end as int));
    }
    let mut out: Vec<char> = Vec::new();
    let mut k: usize = start;
    while k < end
        invariant
            chars@ == s@,
            start <= k <= end <= n,
            n == chars@.len(),
            out@ == chars@.subrange(start as int, k as int),
        decreases end - k,
    {
        out.push(chars[k]);
        k += 1;
        assert(out@ =~= chars@.subrange(start as int, k as int));
    }
    string_from_chars(out.as_slice())
}

/// Whether `a` and `b` hold the same characters.
pub fn same_text(a: &str, b: &str) -> (r: bool)
    ensures
        r == (a@ == b@),
{
    let x = chars_of(a);
    let y = chars_of(b);
    if x.len() != y.len() {
        return false;
    }
    let mut i: usize = 0;
    while i < x.len()
        invariant
            x@ == a@,
            y@ == b@,
            x@.len() == y@.len(),
            i <= x@.len(),
            forall|k: int| 0 <= k < i ==> x@[k] == y@[k],
        decreases x.len() - i,
    {
        if x[i] != y[i] {
            return false;
        }
        i += 1;
    }
    assert(x@ =~= y@);
    true
}

} // verus!

verus! {

/// The decimal digit for `d < 10`.
pub open spec fn digit_char(d: nat) -> char {
    if d == 0 {
        '0'
    } else if d == 1 {
        '1'
    } else if d == 2 {
        '2'
    } else if d == 3 {
        '3'
    } else if d == 4 {
        '4'
    } else if d == 5 {
        '5'
    } else if d == 6 {
        '6'
    } else if d == 7 {
        '7'
    } else if d == 8 {
        '8'
    } else {
        '9'
    }
}

/// The decimal notation of `n`, without leading zeros.
pub open spec fn decimal(n: nat) -> Seq<char>
    decreases n,
{
    if n < 10 {
        seq![digit_char(n)]
    } else {
        decimal(n / 10).push(digit_char(n % 10))
    }
}

/// The number that a string of decimal digits stands for, each digit
/// taken as its distance from `'0'`.
pub open spec fn decimal_value(s: Seq<char>) -> int
    decreases s.len(),
{
    if s.len() == 0 {
        0
    } else {
        10 * decimal_value(s.drop_last()) + (s.last() as int - '0' as int)
    }
}

/// `decimal(n)` is the usual way of writing `n`: it is made of the digits
/// `0` to `9` only, reads back as `n`, and starts with `0` only when `n`
/// is zero itself.
pub proof fn law_decimal_reads_back(n: nat)
    ensures
        decimal(n).len() > 0,
        forall|i: int| 0 <= i < decimal(n).len() ==> '0' <= #[trigger] decimal(n)[i] <= '9',
        decimal_value(decimal(n)) == n,
        decimal(n)[0] == '0' <==> n == 0,
    decreases n,
{
    if n < 10 {
        let s = decimal(n);
        assert(s.drop_last() =~= Seq::<char>::empty());
        assert(digit_char(n) as int - '0' as int == n);
        assert(decimal_value(s.drop_last()) == 0);
        assert(s.last() == digit_char(n));
    } else {
        law_decimal_reads_back(n / 10);
        let p = decimal(n / 10);
        let d = digit_char(n % 10);
        assert(decimal(n) == p.push(d));
        assert(p.push(d).drop_last() =~= p);
        assert(d as int - '0' as int == n % 10);
        vstd::arithmetic::div_mod::lemma_fundamental_div_mod(n as int, 10);
        assert(p.push(d).last() == d);
        assert(p.push(d)[0] == p[0]);
        assert forall|i: int| 0 <= i < p.push(d).len() implies '0' <= #[trigger] p.push(d)[i]
            <= '9' by {
            if i < p.len() {
                assert(p.push(d)[i] == p[i]);
            }
        }
    }
}

fn digit(d: u64) -> (c: char)
    requires
        d < 10,
    ensures
        c == digit_char(d as nat),
{
    if d == 0 {
        '0'
    } else if d == 1 {
        '1'
    } else if d == 2 {
        '2'
    } else if d == 3 {
        '3'
    } else if d == 4 {
        '4'
    } else if d == 5 {
        '5'
    } else if d == 6 {
        '6'
    } else if d == 7 {
        '7'
    } else if d == 8 {
        '8'
    } else {
        '9'
    }
}

fn decimal_chars(n: u64) -> (v: Vec<char>)
    ensures
        v@ == decimal(n as nat),
    decreases n,
{
    if n < 10 {
        let mut v: Vec<char> = Vec::new();
        v.push(digit(n));
        assert(v@ =~= seq![digit_char(n as nat)]);
        v
    } else {
        let mut v = decimal_chars(n / 10);
        v.push(digit(n % 10));
        v
    }
}

/// `n` written in decimal, as `n.to_string()` writes it.
pub fn u64_to_decimal(n: u64) -> (r: String)
    ensures
        r@ == decimal(n as nat),
{
    let v = decimal_chars(n);
    string_from_chars(v.as_slice())
}

/// `n` written in decimal, with a leading `-` when negative, as
/// `n.to_string()` writes it.
pub open spec fn signed_decimal(n: int) -> Seq<char> {
    if n < 0 {
        seq!['-'] + decimal((-n) as nat)
    } else {
        decimal(n as nat)
    }
}

pub fn i32_to_decimal(n: i32) -> (r: String)
    ensures
        r@ == signed_decimal(n as int),
{
    if n < 0 {
        let m: i64 = -(n as i64);
        let v = decimal_chars(m as u64);
        let mut out: Vec<char> = Vec::new();
        out.push('-');
        let mut w = v;
        out.append(&mut w);
        assert(out@ =~= seq!['-'] + decimal((-n) as nat));
        string_from_chars(out.as_slice())
    } else {
        u64_to_decimal(n as u64)
    }
}

} // verus!
