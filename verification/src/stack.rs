use vstd::prelude::*;
use crate::text::{byte_offset, chars_of, lemma_byte_offset_step, utf8_width};

verus! {

/// The element on top of a stack holding `s` (bottom first), if any.
pub open spec fn top<T>(s: Seq<T>) -> Option<T> {
    if s.len() == 0 {
        None
    } else {
        Some(s.last())
    }
}

/// What a stack holding `s` holds once its top element is gone.
pub open spec fn below<T>(s: Seq<T>) -> Seq<T> {
    if s.len() == 0 {
        s
    } else {
        s.drop_last()
    }
}

/// A last-in first-out stack.
pub struct Stack<T> {
    elements: Vec<T>,
}

impl<T> View for Stack<T> {
    type V = Seq<T>;

    /// The elements, bottom first and top last.
    closed spec fn view(&self) -> Seq<T> {
        self.elements@
    }
}

impl<T> Stack<T> {
    /// An empty stack.
    pub fn new() -> (s: Self)
        ensures
            s@ == Seq::<T>::empty(),
    {
        Stack { elements: Vec::new() }
    }

    /// A stack holding `elements`, the last of them on top.
    pub fn with_elements(elements: Vec<T>) -> (s: Self)
        ensures
            s@ == elements@,
    {
        Stack { elements }
    }

    /// The top element, left in place.
    pub fn read(&self) -> (r: Option<&T>)
        ensures
            r == (if self@.len() == 0 { None } else { Some(&self@.last()) }),
    {
        let n = self.elements.len();
        if n == 0 {
            None
        } else {
            Some(&self.elements[n - 1])
        }
    }

    /// Pushes all of `els`, in order, so that the last of them ends on top.
    pub fn push(&mut self, els: Vec<T>)
        ensures
            final(self)@ == old(self)@ + els@,
    {
        let mut els = els;
        self.elements.append(&mut els);
    }

    /// Pushes one element on top.
    pub fn push_one(&mut self, el: T)
        ensures
            final(self)@ == old(self)@.push(el),
    {
        self.elements.push(el);
    }

    /// Takes the top element off, or gives `None` on an empty stack.
    pub fn pop(&mut self) -> (r: Option<T>)
        ensures
            r == top(old(self)@),
            final(self)@ == below(old(self)@),
    {
        self.elements.pop()
    }

    pub fn is_empty(&self) -> (b: bool)
        ensures
            b == (self@.len() == 0),
    {
        self.elements.len() == 0
    }

    pub fn len(&self) -> (n: usize)
        ensures
            n == self@.len(),
    {
        self.elements.len()
    }
}

/// Popping right after pushing one element gives that element back and
/// leaves the stack as it was.
pub proof fn lemma_pop_undoes_push_one<T>(s: Seq<T>, x: T)
    ensures
        top(s.push(x)) == Some(x),
        below(s.push(x)) == s,
{
    assert(s.push(x).drop_last() =~= s);
}

/// Pushing several elements at once is pushing them one by one, in order.
pub proof fn lemma_push_is_push_one_each<T>(s: Seq<T>, els: Seq<T>, x: T)
    ensures
        s + els.push(x) == (s + els).push(x),
{
    assert(s + els.push(x) =~= (s + els).push(x));
}

// ---------------------------------------------------------------------------
// Bracket matching

pub open spec fn is_open(c: char) -> bool {
    c == '(' || c == '{' || c == '['
}

pub open spec fn is_close(c: char) -> bool {
    c == ')' || c == '}' || c == ']'
}

pub open spec fn is_pair(open: char, close: char) -> bool {
    (open == '(' && close == ')') || (open == '{' && close == '}') || (open == '[' && close == ']')
}

/// The openers still unclosed after reading `s` with `st` already open
/// (innermost last), or `None` where a closer does not close the innermost
/// open bracket.
pub open spec fn scan(s: Seq<char>, st: Seq<char>) -> Option<Seq<char>>
    decreases s.len(),
{
    if s.len() == 0 {
        Some(st)
    } else {
        let c = s[0];
        if is_open(c) {
            scan(s.drop_first(), st.push(c))
        } else if is_close(c) {
            if st.len() > 0 && is_pair(st.last(), c) {
                scan(s.drop_first(), st.drop_last())
            } else {
                None
            }
        } else {
            scan(s.drop_first(), st)
        }
    }
}

/// Every bracket of `s` is closed by the matching bracket, properly nested;
/// other characters do not matter.
pub open spec fn balanced(s: Seq<char>) -> bool {
    scan(s, Seq::empty()) == Some(Seq::<char>::empty())
}

/// Why a text is not balanced. Positions are byte offsets into the text.
#[derive(PartialEq, Eq, Structural, Clone, Copy, Debug)]
pub enum BracketError {
    /// The closer `found` at `position` does not match the innermost open
    /// bracket `open`.
    Mismatch { position: usize, found: char, open: char },
    /// The closer `found` at `position` has no open bracket to close.
    Unopened { position: usize, found: char },
    /// The text ends with `count` brackets left open.
    Unclosed { count: usize },
}

/// The verdict on `s` from character index `i` on, with the openers `st`
/// still unclosed: the first fault met, or `Ok`.
pub open spec fn report_from(s: Seq<char>, i: int, st: Seq<char>) -> Result<(), BracketError>
    decreases s.len() - i,
{
    if i < 0 || i >= s.len() {
        if st.len() == 0 {
            Ok(())
        } else {
            Err(BracketError::Unclosed { count: st.len() as usize })
        }
    } else {
        let c = s[i];
        if is_open(c) {
            report_from(s, i + 1, st.push(c))
        } else if is_close(c) {
            if st.len() == 0 {
                Err(BracketError::Unopened { position: byte_offset(s, i) as usize, found: c })
            } else if !is_pair(st.last(), c) {
                Err(
                    BracketError::Mismatch {
                        position: byte_offset(s, i) as usize,
                        found: c,
                        open: st.last(),
                    },
                )
            } else {
                report_from(s, i + 1, st.drop_last())
            }
        } else {
            report_from(s, i + 1, st)
        }
    }
}

/// The verdict on a whole text.
pub open spec fn bracket_report(s: Seq<char>) -> Result<(), BracketError> {
    report_from(s, 0, Seq::empty())
}

/// The report from index `i` is `Ok` exactly when the rest of the text
/// leaves nothing open.
pub proof fn lemma_report_ok_iff_scan(s: Seq<char>, i: int, st: Seq<char>)
    requires
        0 <= i <= s.len(),
    ensures
        (report_from(s, i, st) is Ok) <==> scan(s.skip(i), st) == Some(Seq::<char>::empty()),
    decreases s.len() - i,
{
    if i == s.len() {
        assert(s.skip(i) =~= Seq::<char>::empty());
        if st.len() == 0 {
            assert(st =~= Seq::<char>::empty());
        }
    } else {
        assert(s.skip(i)[0] == s[i]);
        assert(s.skip(i).drop_first() =~= s.skip(i + 1));
        let c = s[i];
        if is_open(c) {
            lemma_report_ok_iff_scan(s, i + 1, st.push(c));
        } else if is_close(c) {
            if st.len() > 0 && is_pair(st.last(), c) {
                lemma_report_ok_iff_scan(s, i + 1, st.drop_last());
            }
        } else {
            lemma_report_ok_iff_scan(s, i + 1, st);
        }
    }
}

/// Reading `a` then `b` is reading `a`, then reading `b` from where `a` left off.
pub proof fn lemma_scan_concat(a: Seq<char>, b: Seq<char>, st: Seq<char>)
    ensures
        scan(a + b, st) == (match scan(a, st) {
            None => None,
            Some(t) => scan(b, t),
        }),
    decreases a.len(),
{
    if a.len() == 0 {
        assert(a + b =~= b);
    } else {
        assert((a + b)[0] == a[0]);
        assert((a + b).drop_first() =~= a.drop_first() + b);
        let c = a[0];
        if is_open(c) {
            lemma_scan_concat(a.drop_first(), b, st.push(c));
        } else if is_close(c) {
            if st.len() > 0 && is_pair(st.last(), c) {
                lemma_scan_concat(a.drop_first(), b, st.drop_last());
            }
        } else {
            lemma_scan_concat(a.drop_first(), b, st);
        }
    }
}

/// Brackets opened before a text are left alone by it: whatever the text
/// does on top of `st`, it does the same on top of `base + st`.
pub proof fn lemma_scan_extend(a: Seq<char>, base: Seq<char>, st: Seq<char>)
    requires
        scan(a, st) is Some,
    ensures
        scan(a, base + st) == Some(base + scan(a, st)->0),
    decreases a.len(),
{
    if a.len() > 0 {
        let c = a[0];
        if is_open(c) {
            assert((base + st).push(c) =~= base + st.push(c));
            lemma_scan_extend(a.drop_first(), base, st.push(c));
        } else if is_close(c) {
            assert((base + st).last() == st.last());
            assert((base + st).drop_last() =~= base + st.drop_last());
            lemma_scan_extend(a.drop_first(), base, st.drop_last());
        } else {
            lemma_scan_extend(a.drop_first(), base, st);
        }
    }
}

proof fn lemma_scan_single(c: char, st: Seq<char>)
    ensures
        scan(seq![c], st) == (if is_open(c) {
            Some(st.push(c))
        } else if is_close(c) {
            if st.len() > 0 && is_pair(st.last(), c) {
                Some(st.drop_last())
            } else {
                None
            }
        } else {
            Some(st)
        }),
{
    reveal_with_fuel(scan, 2);
    let t = seq![c];
    assert(t[0] == c);
    assert(t.drop_first() =~= Seq::<char>::empty());
}

/// The empty text is balanced.
pub proof fn law_empty_is_balanced()
    ensures
        balanced(Seq::empty()),
{
}

/// Two balanced texts one after the other make a balanced text.
pub proof fn law_concat_balanced(a: Seq<char>, b: Seq<char>)
    requires
        balanced(a),
        balanced(b),
    ensures
        balanced(a + b),
{
    lemma_scan_concat(a, b, Seq::empty());
}

/// A balanced text inside a matching pair of brackets is balanced.
pub proof fn law_wrap_balanced(open: char, a: Seq<char>, close: char)
    requires
        is_pair(open, close),
        balanced(a),
    ensures
        balanced(seq![open] + a + seq![close]),
{
    let e = Seq::<char>::empty();
    lemma_scan_single(open, e);
    assert(e.push(open) =~= seq![open]);
    lemma_scan_concat(seq![open], a, e);
    lemma_scan_extend(a, seq![open], e);
    assert(seq![open] + e =~= seq![open]);
    lemma_scan_concat(seq![open] + a, seq![close], e);
    lemma_scan_single(close, seq![open]);
    assert(seq![open].drop_last() =~= e);
}

/// Characters other than brackets do not change whether a text is balanced.
pub proof fn law_other_chars_ignored(a: Seq<char>, x: char, b: Seq<char>)
    requires
        !is_open(x),
        !is_close(x),
    ensures
        balanced(a + seq![x] + b) == balanced(a + b),
{
    let e = Seq::<char>::empty();
    lemma_scan_concat(a + seq![x], b, e);
    lemma_scan_concat(a, seq![x], e);
    lemma_scan_concat(a, b, e);
    if scan(a, e) is Some {
        lemma_scan_single(x, scan(a, e)->0);
    }
}

/// A text that starts with a closing bracket is never balanced.
pub proof fn law_leading_closer_unbalanced(c: char, a: Seq<char>)
    requires
        is_close(c),
    ensures
        !balanced(seq![c] + a),
{
    let e = Seq::<char>::empty();
    lemma_scan_concat(seq![c], a, e);
    lemma_scan_single(c, e);
}

/// An opening bracket followed by a balanced text leaves that bracket open.
pub proof fn law_unclosed_opener_unbalanced(o: char, a: Seq<char>)
    requires
        is_open(o),
        balanced(a),
    ensures
        !balanced(seq![o] + a),
{
    let e = Seq::<char>::empty();
    lemma_scan_concat(seq![o], a, e);
    lemma_scan_single(o, e);
    assert(e.push(o) =~= seq![o]);
    lemma_scan_extend(a, seq![o], e);
    assert(seq![o] + e =~= seq![o]);
    assert(seq![o].len() == 1);
}

/// The kind of a bracket: round 0, square 1, curly 2; -1 for any other
/// character.
pub open spec fn bracket_kind(c: char) -> int {
    if c == '(' || c == ')' {
        0
    } else if c == '[' || c == ']' {
        1
    } else if c == '{' || c == '}' {
        2
    } else {
        -1
    }
}

/// A closer closes an opener exactly when both are of the same kind: `(`
/// only with `)`, `[` only with `]`, `{` only with `}`; every opener has
/// exactly one closer and every closer exactly one opener.
pub proof fn law_pair_same_kind(open: char, close: char)
    ensures
        is_pair(open, close) <==> (is_open(open) && is_close(close) && bracket_kind(open)
            == bracket_kind(close)),
        is_open(open) ==> exists|c: char| #[trigger] is_pair(open, c),
        is_close(close) ==> exists|o: char| #[trigger] is_pair(o, close),
        forall|c1: char, c2: char|
            #![trigger is_pair(open, c1), is_pair(open, c2)]
            is_pair(open, c1) && is_pair(open, c2) ==> c1 == c2,
        forall|o1: char, o2: char|
            #![trigger is_pair(o1, close), is_pair(o2, close)]
            is_pair(o1, close) && is_pair(o2, close) ==> o1 == o2,
{
    if open == '(' {
        assert(is_pair(open, ')'));
    } else if open == '[' {
        assert(is_pair(open, ']'));
    } else if open == '{' {
        assert(is_pair(open, '}'));
    }
    if close == ')' {
        assert(is_pair('(', close));
    } else if close == ']' {
        assert(is_pair('[', close));
    } else if close == '}' {
        assert(is_pair('{', close));
    }
}

/// A closer right after an opener of another kind makes the text
/// unbalanced, whatever stands before and after: `{]`, `(]`, `[}` ...
pub proof fn law_mismatched_closer_unbalanced(a: Seq<char>, open: char, close: char, b: Seq<char>)
    requires
        is_open(open),
        is_close(close),
        bracket_kind(open) != bracket_kind(close),
    ensures
        !balanced(a + seq![open, close] + b),
{
    let e = Seq::<char>::empty();
    lemma_scan_concat(a + seq![open, close], b, e);
    lemma_scan_concat(a, seq![open, close], e);
    if scan(a, e) is Some {
        let st = scan(a, e)->0;
        assert(seq![open, close] =~= seq![open] + seq![close]);
        lemma_scan_concat(seq![open], seq![close], st);
        lemma_scan_single(open, st);
        lemma_scan_single(close, st.push(open));
        assert(st.push(open).last() == open);
        assert(!is_pair(open, close));
    }
}

/// A closer that does not match the innermost bracket still open makes the
/// text unbalanced: after `a` leaves `open` innermost, any closer of
/// another kind is refused, whatever follows.
pub proof fn law_closer_must_match_innermost(a: Seq<char>, close: char, b: Seq<char>)
    requires
        scan(a, Seq::empty()) matches Some(st) && st.len() > 0 && bracket_kind(st.last())
            != bracket_kind(close),
        is_close(close),
    ensures
        !balanced(a + seq![close] + b),
{
    let e = Seq::<char>::empty();
    let st = scan(a, e)->0;
    lemma_scan_concat(a + seq![close], b, e);
    lemma_scan_concat(a, seq![close], e);
    lemma_scan_single(close, st);
    law_pair_same_kind(st.last(), close);
}

/// The brackets of `s`, in order, without any other character.
pub open spec fn brackets_of(s: Seq<char>) -> Seq<char>
    decreases s.len(),
{
    if s.len() == 0 {
        Seq::empty()
    } else if is_open(s[0]) || is_close(s[0]) {
        seq![s[0]] + brackets_of(s.drop_first())
    } else {
        brackets_of(s.drop_first())
    }
}

/// Deleting, in turn, the adjacent pair `()`, `[]` or `{}` that starts at
/// each position of `steps` empties `b`.
pub open spec fn reduces_by(b: Seq<char>, steps: Seq<int>) -> bool
    decreases steps.len(),
{
    if steps.len() == 0 {
        b.len() == 0
    } else {
        let i = steps[0];
        &&& 0 <= i < b.len() - 1
        &&& is_pair(b[i], b[i + 1])
        &&& reduces_by(b.take(i) + b.skip(i + 2), steps.drop_first())
    }
}

/// `b` can be emptied by deleting, again and again, an adjacent `()`,
/// `[]` or `{}`.
pub open spec fn reduces_to_empty(b: Seq<char>) -> bool {
    exists|steps: Seq<int>| #[trigger] reduces_by(b, steps)
}

proof fn lemma_scan_brackets_of(s: Seq<char>, st: Seq<char>)
    ensures
        scan(s, st) == scan(brackets_of(s), st),
    decreases s.len(),
{
    if s.len() > 0 {
        lemma_scan_brackets_of(s.drop_first(), st.push(s[0]));
        lemma_scan_brackets_of(s.drop_first(), st);
        if st.len() > 0 {
            lemma_scan_brackets_of(s.drop_first(), st.drop_last());
        }
        if is_open(s[0]) || is_close(s[0]) {
            let b = seq![s[0]] + brackets_of(s.drop_first());
            assert(b[0] == s[0]);
            assert(b.drop_first() =~= brackets_of(s.drop_first()));
        }
    }
}

proof fn lemma_brackets_of_only_brackets(s: Seq<char>)
    ensures
        forall|k: int|
            0 <= k < brackets_of(s).len() ==> is_open(#[trigger] brackets_of(s)[k]) || is_close(
                brackets_of(s)[k],
            ),
    decreases s.len(),
{
    if s.len() > 0 {
        lemma_brackets_of_only_brackets(s.drop_first());
        if is_open(s[0]) || is_close(s[0]) {
            let r = brackets_of(s.drop_first());
            assert forall|k: int| 0 <= k < (seq![s[0]] + r).len() implies is_open(
                #[trigger] (seq![s[0]] + r)[k],
            ) || is_close((seq![s[0]] + r)[k]) by {
                if k > 0 {
                    assert((seq![s[0]] + r)[k] == r[k - 1]);
                }
            }
        }
    }
}

/// Deleting an adjacent matching pair does not change what a scan gives.
proof fn lemma_scan_delete_pair(b: Seq<char>, i: int, st: Seq<char>)
    requires
        0 <= i < b.len() - 1,
        is_pair(b[i], b[i + 1]),
    ensures
        scan(b, st) == scan(b.take(i) + b.skip(i + 2), st),
{
    let a = b.take(i);
    let pair = seq![b[i], b[i + 1]];
    let rest = b.skip(i + 2);
    assert(b =~= a + (pair + rest));
    lemma_scan_concat(a, pair + rest, st);
    lemma_scan_concat(a, rest, st);
    if scan(a, st) is Some {
        let t = scan(a, st)->0;
        lemma_scan_concat(pair, rest, t);
        assert(pair =~= seq![b[i]] + seq![b[i + 1]]);
        lemma_scan_concat(seq![b[i]], seq![b[i + 1]], t);
        lemma_scan_single(b[i], t);
        lemma_scan_single(b[i + 1], t.push(b[i]));
        assert(t.push(b[i]).drop_last() =~= t);
    }
}

proof fn lemma_reduces_then_balanced(b: Seq<char>, steps: Seq<int>)
    requires
        reduces_by(b, steps),
    ensures
        scan(b, Seq::empty()) == Some(Seq::<char>::empty()),
    decreases steps.len(),
{
    if steps.len() > 0 {
        let i = steps[0];
        lemma_reduces_then_balanced(b.take(i) + b.skip(i + 2), steps.drop_first());
        lemma_scan_delete_pair(b, i, Seq::empty());
    } else {
        assert(b =~= Seq::<char>::empty());
    }
}

proof fn lemma_scan_openers(a: Seq<char>, st: Seq<char>)
    requires
        forall|k: int| 0 <= k < a.len() ==> is_open(#[trigger] a[k]),
    ensures
        scan(a, st) == Some(st + a),
    decreases a.len(),
{
    if a.len() == 0 {
        assert(st + a =~= st);
    } else {
        assert forall|k: int| 0 <= k < a.drop_first().len() implies is_open(
            #[trigger] a.drop_first()[k],
        ) by {
            assert(a.drop_first()[k] == a[k + 1]);
        }
        lemma_scan_openers(a.drop_first(), st.push(a[0]));
        assert(st.push(a[0]) + a.drop_first() =~= st + a);
    }
}

/// A balanced sequence of brackets whose first `k` are all openers holds
/// an adjacent matching pair.
proof fn lemma_has_adjacent_pair(b: Seq<char>, k: int) -> (i: int)
    requires
        b.len() > 0,
        0 <= k <= b.len(),
        forall|j: int| 0 <= j < b.len() ==> is_open(#[trigger] b[j]) || is_close(b[j]),
        forall|j: int| 0 <= j < k ==> is_open(#[trigger] b[j]),
        scan(b, Seq::empty()) == Some(Seq::<char>::empty()),
    ensures
        0 <= i < b.len() - 1,
        is_pair(b[i], b[i + 1]),
    decreases b.len() - k,
{
    let e = Seq::<char>::empty();
    if k == b.len() {
        lemma_scan_openers(b, e);
        assert((e + b).len() > 0);
        assert(false);
        0
    } else if is_open(b[k]) {
        lemma_has_adjacent_pair(b, k + 1)
    } else {
        let a = b.take(k);
        assert forall|j: int| 0 <= j < a.len() implies is_open(#[trigger] a[j]) by {
            assert(a[j] == b[j]);
        }
        lemma_scan_openers(a, e);
        assert(b =~= a + seq![b[k]] + b.skip(k + 1));
        lemma_scan_concat(a + seq![b[k]], b.skip(k + 1), e);
        lemma_scan_concat(a, seq![b[k]], e);
        assert(e + a =~= a);
        lemma_scan_single(b[k], a);
        assert(k > 0);
        assert(a.last() == b[k - 1]);
        k - 1
    }
}

proof fn lemma_balanced_then_reduces(b: Seq<char>) -> (steps: Seq<int>)
    requires
        forall|j: int| 0 <= j < b.len() ==> is_open(#[trigger] b[j]) || is_close(b[j]),
        scan(b, Seq::empty()) == Some(Seq::<char>::empty()),
    ensures
        reduces_by(b, steps),
    decreases b.len(),
{
    if b.len() == 0 {
        Seq::empty()
    } else {
        let i = lemma_has_adjacent_pair(b, 0);
        let r = b.take(i) + b.skip(i + 2);
        assert forall|j: int| 0 <= j < r.len() implies is_open(#[trigger] r[j]) || is_close(r[j]) by {
            if j < i {
                assert(r[j] == b[j]);
            } else {
                assert(r[j] == b[j + 2]);
            }
        }
        lemma_scan_delete_pair(b, i, Seq::empty());
        let rest = lemma_balanced_then_reduces(r);
        let steps = seq![i] + rest;
        assert(steps[0] == i);
        assert(steps.drop_first() =~= rest);
        steps
    }
}

/// A text is balanced exactly when its brackets, taken alone, can be
/// emptied by deleting adjacent matching pairs `()`, `[]`, `{}` again and
/// again; every other character is ignored.
pub proof fn law_balanced_iff_pairs_delete(s: Seq<char>)
    ensures
        balanced(s) <==> reduces_to_empty(brackets_of(s)),
{
    lemma_scan_brackets_of(s, Seq::empty());
    lemma_brackets_of_only_brackets(s);
    if balanced(s) {
        let steps = lemma_balanced_then_reduces(brackets_of(s));
        assert(reduces_by(brackets_of(s), steps));
    }
    if reduces_to_empty(brackets_of(s)) {
        let steps = choose|steps: Seq<int>| #[trigger] reduces_by(brackets_of(s), steps);
        lemma_reduces_then_balanced(brackets_of(s), steps);
    }
}

/// Checks that brackets `()`, `{}` and `[]` are properly nested.
pub struct Bracketer {
    bracket_pairs: Vec<(char, char)>,
}

impl Bracketer {
    /// The pairs that the checker knows, each as (closer, opener).
    pub closed spec fn pairs(&self) -> Seq<(char, char)> {
        self.bracket_pairs@
    }

    pub fn new() -> (b: Self)
        ensures
            b.pairs() == seq![(')', '('), ('}', '{'), (']', '[')],
    {
        let mut pairs: Vec<(char, char)> = Vec::new();
        pairs.push((')', '('));
        pairs.push(('}', '{'));
        pairs.push((']', '['));
        Bracketer { bracket_pairs: pairs }
    }

    /// Whether `text` is balanced; the first fault otherwise.
    pub fn check_detailed(&self, text: &str) -> (r: Result<(), BracketError>)
        ensures
            r == bracket_report(text@),
    {
        let chars = chars_of(text);
        let n_bytes = text.as_bytes().len();
        let ghost s = text@;
        let mut stack: Stack<char> = Stack::new();
        let mut i: usize = 0;
        let mut pos: usize = 0;
        while i < chars.len()
            invariant
                chars@ == s,
                s == text@,
                n_bytes == vstd::utf8::encode_utf8(s).len(),
                i <= chars.len(),
                pos == byte_offset(s, i as int),
                bracket_report(s) == report_from(s, i as int, stack@),
            decreases chars.len() - i,
        {
            let c = chars[i];
            proof {
                lemma_byte_offset_step(s, i as int);
            }
            if self.is_opening_bracket(c) {
                stack.push_one(c);
            } else if self.is_closing_bracket(c) {
                match stack.pop() {
                    Some(last_open) => {
                        if !self.is_matching_pair(last_open, c) {
                            return Err(
                                BracketError::Mismatch { position: pos, found: c, open: last_open },
                            );
                        }
                    },
                    None => {
                        return Err(BracketError::Unopened { position: pos, found: c });
                    },
                }
            }
            pos = pos + utf8_width(c);
            i = i + 1;
        }
        if !stack.is_empty() {
            return Err(BracketError::Unclosed { count: stack.len() });
        }
        Ok(())
    }

    /// Whether every bracket of `text` is closed by its match, properly nested.
    pub fn check(&self, text: &str) -> (b: bool)
        ensures
            b == balanced(text@),
            b == (bracket_report(text@) is Ok),
    {
        proof {
            lemma_report_ok_iff_scan(text@, 0, Seq::empty());
            assert(text@.skip(0) =~= text@);
        }
        self.check_detailed(text).is_ok()
    }

    pub fn is_opening_bracket(&self, ch: char) -> (b: bool)
        ensures
            b == is_open(ch),
    {
        ch == '(' || ch == '{' || ch == '['
    }

    pub fn is_closing_bracket(&self, ch: char) -> (b: bool)
        ensures
            b == is_close(ch),
    {
        ch == ')' || ch == '}' || ch == ']'
    }

    pub fn is_matching_pair(&self, open: char, close: char) -> (b: bool)
        ensures
            b == is_pair(open, close),
    {
        match (open, close) {
            ('(', ')') => true,
            ('{', '}') => true,
            ('[', ']') => true,
            _ => false,
        }
    }
}

} // verus!
