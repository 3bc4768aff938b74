//! Text as sequences of characters: trimming, searching, splitting, replacing.

use vstd::prelude::*;
use vstd::slice::slice_subrange;

verus! {

/// `String::push` appends the given character to the end of the string.
pub assume_specification[ std::string::String::push ](s: &mut std::string::String, c: char)
    ensures
        final(s)@ == old(s)@.push(c),
;

/// The characters of `s`, in order.
pub fn chars_of(s: &str) -> (r: Vec<char>)
    ensures
        r@ == s@,
{
    let mut out: Vec<char> = Vec::new();
    for c in it: s.chars()
        invariant
            out@ == s@.take(it.index() as int),
            it.seq() == s@,
    {
        out.push(c);
    }
    out
}

/// The text spelled by `chars`.
pub fn text_of(chars: &[char]) -> (r: String)
    ensures
        r@ == chars@,
{
    let mut out: String = String::new();
    let mut i: usize = 0;
    while i < chars.len()
        invariant
            i <= chars@.len(),
            out@ == chars@.take(i as int),
        decreases chars@.len() - i,
    {
        out.push(chars[i]);
        i += 1;
        assert(chars@.take(i as int) =~= chars@.take(i - 1).push(chars@[i - 1]));
    }
    assert(chars@.take(i as int) =~= chars@);
    out
}

/// Whether two character slices spell the same text.
pub fn same(a: &[char], b: &[char]) -> (r: bool)
    ensures
        r == (a@ == b@),
{
    if a.len() != b.len() {
        return false;
    }
    let mut i: usize = 0;
    while i < a.len()
        invariant
            i <= a@.len(),
            a@.len() == b@.len(),
            forall|j: int| 0 <= j < i ==> a@[j] == b@[j],
        decreases a@.len() - i,
    {
        if a[i] != b[i] {
            return false;
        }
        i += 1;
    }
    assert(a@ =~= b@);
    true
}

/// Whether two texts are equal.
pub fn same_text(a: &str, b: &str) -> (r: bool)
    ensures
        r == (a@ == b@),
{
    let x: Vec<char> = chars_of(a);
    let y: Vec<char> = chars_of(b);
    same(x.as_slice(), y.as_slice())
}

/// Joins two texts.
pub fn join(a: &str, b: &str) -> (r: String)
    ensures
        r@ == a@ + b@,
{
    let mut out: String = String::new();
    out.append(a);
    out.append(b);
    assert(Seq::<char>::empty() + a@ + b@ =~= a@ + b@);
    out
}

// ---------------------------------------------------------------- trimming

/// The Unicode `White_Space` property.
pub open spec fn is_white(c: char) -> bool {
    ||| '\u{9}' <= c <= '\u{D}'
    ||| c == '\u{20}'
    ||| c == '\u{85}'
    ||| c == '\u{A0}'
    ||| c == '\u{1680}'
    ||| '\u{2000}' <= c <= '\u{200A}'
    ||| c == '\u{2028}'
    ||| c == '\u{2029}'
    ||| c == '\u{202F}'
    ||| c == '\u{205F}'
    ||| c == '\u{3000}'
}

/// Whether `c` is white space.
pub fn white_space(c: char) -> (r: bool)
    ensures
        r == is_white(c),
{
    ('\u{9}' <= c && c <= '\u{D}') || c == '\u{20}' || c == '\u{85}' || c == '\u{A0}' || c
        == '\u{1680}' || ('\u{2000}' <= c && c <= '\u{200A}') || c == '\u{2028}' || c == '\u{2029}'
        || c == '\u{202F}' || c == '\u{205F}' || c == '\u{3000}'
}

/// `s` without its leading white space.
pub open spec fn trimmed_start(s: Seq<char>) -> Seq<char>
    decreases s.len(),
{
    if s.len() > 0 && is_white(s[0]) {
        trimmed_start(s.skip(1))
    } else {
        s
    }
}

/// `s` without its trailing white space.
pub open spec fn trimmed_end(s: Seq<char>) -> Seq<char>
    decreases s.len(),
{
    if s.len() > 0 && is_white(s.last()) {
        trimmed_end(s.drop_last())
    } else {
        s
    }
}

/// `s` without white space at either end.
pub open spec fn trimmed(s: Seq<char>) -> Seq<char> {
    trimmed_end(trimmed_start(s))
}

/// Drops white space at both ends.
pub fn trim<'a>(s: &'a [char]) -> (r: &'a [char])
    ensures
        r@ == trimmed(s@),
{
    let mut a: usize = 0;
    assert(s@.skip(0) =~= s@);
    while a < s.len() && white_space(s[a])
        invariant
            a <= s@.len(),
            trimmed_start(s@) == trimmed_start(s@.skip(a as int)),
        decreases s@.len() - a,
    {
        assert(s@.skip(a as int).skip(1) =~= s@.skip(a + 1));
        a += 1;
    }
    let mut b: usize = s.len();
    assert(s@.subrange(a as int, b as int) =~= s@.skip(a as int));
    while b > a && white_space(s[b - 1])
        invariant
            a <= b <= s@.len(),
            trimmed(s@) == trimmed_end(s@.subrange(a as int, b as int)),
        decreases b,
    {
        assert(s@.subrange(a as int, b as int).drop_last() =~= s@.subrange(a as int, b - 1));
        b -= 1;
    }
    slice_subrange(s, a, b)
}

/// Trimming a trimmed text changes nothing.
pub proof fn trimmed_twice(s: Seq<char>)
    ensures
        trimmed(trimmed(s)) == trimmed(s),
{
    lemma_trimmed_start_front(s);
    let t = trimmed_start(s);
    lemma_trimmed_end_front(t);
    lemma_trimmed_end_back(t);
}

/// Trimming adds no characters.
pub proof fn trimmed_is_part(s: Seq<char>)
    ensures
        forall|c: char| #[trigger] trimmed(s).contains(c) ==> s.contains(c),
{
    lemma_trimmed_start_part(s);
    lemma_trimmed_end_part(trimmed_start(s));
}

/// What is left behind leading white space was there before.
proof fn lemma_trimmed_start_part(s: Seq<char>)
    ensures
        forall|c: char| #[trigger] trimmed_start(s).contains(c) ==> s.contains(c),
    decreases s.len(),
{
    if s.len() > 0 && is_white(s[0]) {
        lemma_trimmed_start_part(s.skip(1));
        assert forall|c: char| #[trigger] trimmed_start(s).contains(c) implies s.contains(c) by {
            assert(trimmed_start(s.skip(1)).contains(c));
            let i = s.skip(1).index_of(c);
            assert(s[i + 1] == c);
        }
    }
}

/// What is left before trailing white space was there before.
proof fn lemma_trimmed_end_part(s: Seq<char>)
    ensures
        forall|c: char| #[trigger] trimmed_end(s).contains(c) ==> s.contains(c),
    decreases s.len(),
{
    if s.len() > 0 && is_white(s.last()) {
        lemma_trimmed_end_part(s.drop_last());
        assert forall|c: char| #[trigger] trimmed_end(s).contains(c) implies s.contains(c) by {
            assert(trimmed_end(s.drop_last()).contains(c));
            let i = s.drop_last().index_of(c);
            assert(s[i] == c);
        }
    }
}

/// What is left of a text behind its leading white space begins with none.
proof fn lemma_trimmed_start_front(s: Seq<char>)
    ensures
        trimmed_start(s).len() > 0 ==> !is_white(trimmed_start(s)[0]),
    decreases s.len(),
{
    if s.len() > 0 && is_white(s[0]) {
        lemma_trimmed_start_front(s.skip(1));
    }
}

/// Trimming the end keeps the first character, unless nothing is left.
proof fn lemma_trimmed_end_front(s: Seq<char>)
    ensures
        trimmed_end(s).len() <= s.len(),
        trimmed_end(s).len() > 0 ==> trimmed_end(s)[0] == s[0],
    decreases s.len(),
{
    if s.len() > 0 && is_white(s.last()) {
        lemma_trimmed_end_front(s.drop_last());
    }
}

/// What is left of a text before its trailing white space ends in none.
proof fn lemma_trimmed_end_back(s: Seq<char>)
    ensures
        trimmed_end(trimmed_end(s)) == trimmed_end(s),
    decreases s.len(),
{
    if s.len() > 0 && is_white(s.last()) {
        lemma_trimmed_end_back(s.drop_last());
    }
}

/// `s` without the copies of `tail` that it ends in.
pub open spec fn without_tail(s: Seq<char>, tail: Seq<char>) -> Seq<char>
    decreases s.len(),
{
    if 0 < tail.len() <= s.len() && s.skip(s.len() - tail.len()) == tail {
        without_tail(s.take(s.len() - tail.len()), tail)
    } else {
        s
    }
}

/// Drops every copy of `tail` from the end of `s`.
pub fn trim_tail<'a>(s: &'a [char], tail: &str) -> (r: &'a [char])
    ensures
        r@ == without_tail(s@, tail@),
{
    let tail: Vec<char> = chars_of(tail);
    let n: usize = tail.len();
    let mut b: usize = s.len();
    assert(s@.take(b as int) =~= s@);
    while n > 0 && n <= b && same(slice_subrange(s, b - n, b), tail.as_slice())
        invariant
            b <= s@.len(),
            n == tail@.len(),
            without_tail(s@, tail@) == without_tail(s@.take(b as int), tail@),
        decreases b,
    {
        assert(s@.take(b as int).skip(b - n) =~= s@.subrange(b - n, b as int));
        assert(s@.take(b as int).take(b - n) =~= s@.take(b - n));
        b -= n;
    }
    proof {
        if 0 < n <= b {
            assert(s@.take(b as int).skip(b - n) =~= s@.subrange(b - n, b as int));
        }
    }
    assert(s@.take(b as int) =~= s@.subrange(0, b as int));
    slice_subrange(s, 0, b)
}

// --------------------------------------------------------------- searching

/// Whether `s` begins with `head`.
pub open spec fn has_prefix(s: Seq<char>, head: Seq<char>) -> bool {
    head.len() <= s.len() && s.take(head.len() as int) == head
}

/// Whether `s` begins with `head`.
pub fn starts_with(s: &[char], head: &str) -> (r: bool)
    ensures
        r == has_prefix(s@, head@),
{
    let head: Vec<char> = chars_of(head);
    if head.len() > s.len() {
        return false;
    }
    assert(s@.take(head@.len() as int) =~= s@.subrange(0, head@.len() as int));
    same(slice_subrange(s, 0, head.len()), head.as_slice())
}

/// What follows `head` at the beginning of `s`.
pub open spec fn after_prefix(s: Seq<char>, head: Seq<char>) -> Option<Seq<char>> {
    if has_prefix(s, head) {
        Some(s.skip(head.len() as int))
    } else {
        None
    }
}

/// Drops `head` from the beginning of `s`.
pub fn strip_prefix<'a>(s: &'a [char], head: &str) -> (r: Option<&'a [char]>)
    ensures
        match r {
            Some(rest) => after_prefix(s@, head@) == Some(rest@),
            None => after_prefix(s@, head@) is None,
        },
{
    if starts_with(s, head) {
        let n: usize = chars_of(head).len();
        let rest: &'a [char] = slice_subrange(s, n, s.len());
        assert(rest@ =~= s@.skip(n as int));
        Some(rest)
    } else {
        None
    }
}

/// Whether `pat` stands in `s` at position `i`.
pub open spec fn occurs_at(s: Seq<char>, pat: Seq<char>, i: int) -> bool {
    0 <= i <= s.len() - pat.len() && s.subrange(i, i + pat.len()) == pat
}

/// Whether `pat` stands anywhere in `s`.
pub open spec fn occurs(s: Seq<char>, pat: Seq<char>) -> bool {
    exists|i: int| occurs_at(s, pat, i)
}

/// Whether `i` is the first place where `pat` stands in `s`.
pub open spec fn occurs_first(s: Seq<char>, pat: Seq<char>, i: int) -> bool {
    occurs_at(s, pat, i) && forall|j: int| j < i ==> !occurs_at(s, pat, j)
}

/// The first place where `pat` stands in `s`.
pub open spec fn found(s: Seq<char>, pat: Seq<char>) -> Option<int> {
    if occurs(s, pat) {
        Some(choose|i: int| occurs_first(s, pat, i))
    } else {
        None
    }
}

/// A text that contains `pat` contains a first copy of it.
proof fn lemma_first_exists(s: Seq<char>, pat: Seq<char>, i: int)
    requires
        occurs_at(s, pat, i),
    ensures
        exists|k: int| occurs_first(s, pat, k),
    decreases i,
{
    if exists|j: int| j < i && occurs_at(s, pat, j) {
        let j = choose|j: int| j < i && occurs_at(s, pat, j);
        lemma_first_exists(s, pat, j);
    } else {
        assert(occurs_first(s, pat, i));
    }
}

/// What `found` gives is the first place, and there is one whenever `pat` occurs.
pub proof fn lemma_found(s: Seq<char>, pat: Seq<char>)
    ensures
        found(s, pat) matches Some(i) ==> occurs_first(s, pat, i),
        found(s, pat) is None ==> forall|i: int| !occurs_at(s, pat, i),
        forall|i: int| occurs_first(s, pat, i) ==> found(s, pat) == Some(i),
{
    if occurs(s, pat) {
        let i = choose|i: int| occurs_at(s, pat, i);
        lemma_first_exists(s, pat, i);
    }
    assert forall|i: int| occurs_first(s, pat, i) implies found(s, pat) == Some(i) by {
        let k = choose|k: int| occurs_first(s, pat, k);
        assert(occurs_first(s, pat, k));
        assert(k == i);
    }
}

/// Finds the first copy of `pat` in `s`.
pub fn find(s: &[char], pat: &[char]) -> (r: Option<usize>)
    ensures
        match r {
            Some(i) => found(s@, pat@) == Some(i as int) && i + pat@.len() <= s@.len(),
            None => found(s@, pat@) is None,
        },
{
    proof {
        lemma_found(s@, pat@);
    }
    let n: usize = pat.len();
    if n > s.len() {
        return None;
    }
    let total: usize = s.len();
    let last: usize = total - n;
    let mut i: usize = 0;
    loop
        invariant
            i <= last,
            n == pat@.len(),
            total == s@.len(),
            last == total - n,
            forall|j: int| j < i ==> !occurs_at(s@, pat@, j),
            forall|j: int| occurs_first(s@, pat@, j) ==> found(s@, pat@) == Some(j),
            found(s@, pat@) matches Some(j) ==> occurs_first(s@, pat@, j),
        decreases last - i,
    {
        if same(slice_subrange(s, i, i + n), pat) {
            assert(occurs_first(s@, pat@, i as int));
            return Some(i);
        }
        assert(!occurs_at(s@, pat@, i as int));
        if i == last {
            return None;
        }
        i += 1;
    }
}

// --------------------------------------------------------------- splitting

/// What `s` holds before the first character that is one of `stops`; all of
/// `s` where none is.
pub open spec fn before(s: Seq<char>, stops: Seq<char>) -> Seq<char>
    decreases s.len(),
{
    if s.len() == 0 || stops.contains(s[0]) {
        Seq::empty()
    } else {
        seq![s[0]] + before(s.skip(1), stops)
    }
}

/// Whether `c` is among `set`.
fn among(c: char, set: &[char]) -> (r: bool)
    ensures
        r == set@.contains(c),
{
    let mut i: usize = 0;
    while i < set.len()
        invariant
            i <= set@.len(),
            forall|j: int| 0 <= j < i ==> set@[j] != c,
        decreases set@.len() - i,
    {
        if set[i] == c {
            return true;
        }
        i += 1;
    }
    false
}

/// Cuts `s` before the first of `stops`.
pub fn cut_before<'a>(s: &'a [char], stops: &str) -> (r: &'a [char])
    ensures
        r@ == before(s@, stops@),
{
    let stops: Vec<char> = chars_of(stops);
    cut_at(s, stops.as_slice())
}

/// Cuts `s` before the first of `stops`.
fn cut_at<'a>(s: &'a [char], stops: &[char]) -> (r: &'a [char])
    ensures
        r@ == before(s@, stops@),
{
    let mut i: usize = 0;
    assert(s@.skip(0) =~= s@);
    assert(s@.take(0) + before(s@, stops@) =~= before(s@, stops@));
    while i < s.len() && !among(s[i], stops)
        invariant
            i <= s@.len(),
            before(s@, stops@) == s@.take(i as int) + before(s@.skip(i as int), stops@),
        decreases s@.len() - i,
    {
        assert(s@.skip(i as int).skip(1) =~= s@.skip(i + 1));
        assert(s@.take(i as int) + (seq![s@[i as int]] + before(s@.skip(i + 1), stops@))
            =~= s@.take(i + 1) + before(s@.skip(i + 1), stops@));
        i += 1;
    }
    assert(before(s@, stops@) =~= s@.subrange(0, i as int));
    slice_subrange(s, 0, i)
}

/// What is cut off before the first of `stops` holds none of them, and nothing
/// that was not there.
pub proof fn before_holds_no_stop(s: Seq<char>, stops: Seq<char>)
    ensures
        forall|c: char| #[trigger]
            before(s, stops).contains(c) ==> !stops.contains(c) && s.contains(c),
    decreases s.len(),
{
    if s.len() > 0 && !stops.contains(s[0]) {
        let rest = before(s.skip(1), stops);
        before_holds_no_stop(s.skip(1), stops);
        assert forall|c: char| #[trigger] before(s, stops).contains(c) implies !stops.contains(c)
            && s.contains(c) by {
            let i = before(s, stops).index_of(c);
            if i == 0 {
                assert(s[0] == c);
            } else {
                assert(rest[i - 1] == c);
                assert(rest.contains(c));
                let j = s.skip(1).index_of(c);
                assert(s[j + 1] == c);
            }
        }
    }
}

/// The two sides of the first copy of `mark` in `s`.
pub open spec fn sides(s: Seq<char>, mark: Seq<char>) -> Option<(Seq<char>, Seq<char>)> {
    match found(s, mark) {
        Some(i) => Some((s.take(i), s.skip(i + mark.len()))),
        None => None,
    }
}

/// Splits `s` at the first copy of `mark`.
pub fn split_once<'a>(s: &'a [char], mark: &str) -> (r: Option<(&'a [char], &'a [char])>)
    ensures
        match r {
            Some((a, b)) => sides(s@, mark@) == Some((a@, b@)),
            None => sides(s@, mark@) is None,
        },
{
    let mark: Vec<char> = chars_of(mark);
    match find(s, mark.as_slice()) {
        Some(i) => {
            let a: &'a [char] = slice_subrange(s, 0, i);
            let total: usize = s.len();
            let b: &'a [char] = slice_subrange(s, i + mark.len(), total);
            assert(a@ =~= s@.take(i as int));
            assert(b@ =~= s@.skip(i + mark@.len()));
            Some((a, b))
        },
        None => None,
    }
}

/// The pieces of `s` between the copies of `mark`.
pub open spec fn pieces(s: Seq<char>, mark: char) -> Seq<Seq<char>>
    decreases s.len(),
{
    let head = before(s, seq![mark]);
    if head.len() < s.len() {
        seq![head] + pieces(s.skip(head.len() as int + 1), mark)
    } else {
        seq![s]
    }
}

/// The texts that a list of character slices spells.
pub open spec fn spelled(v: Seq<&[char]>) -> Seq<Seq<char>> {
    Seq::new(v.len(), |i: int| v[i]@)
}

/// Splits `s` at every copy of `mark`.
pub fn split<'a>(s: &'a [char], mark: char) -> (r: Vec<&'a [char]>)
    ensures
        spelled(r@) == pieces(s@, mark),
{
    let stops: Vec<char> = vec![mark];
    let total: usize = s.len();
    let mut out: Vec<&'a [char]> = Vec::new();
    let mut i: usize = 0;
    assert(stops@ =~= seq![mark]);
    assert(s@.skip(0) =~= s@);
    assert(spelled(out@) + pieces(s@, mark) =~= pieces(s@, mark));
    loop
        invariant
            i <= total,
            total == s@.len(),
            stops@ == seq![mark],
            pieces(s@, mark) == spelled(out@) + pieces(s@.skip(i as int), mark),
        decreases total - i,
    {
        let rest: &'a [char] = slice_subrange(s, i, total);
        assert(rest@ =~= s@.skip(i as int));
        let head: &'a [char] = cut_at(rest, stops.as_slice());
        let ghost done = out@;
        proof {
            lemma_before_shorter(rest@, seq![mark]);
        }
        if head.len() < rest.len() {
            out.push(head);
            i = i + head.len() + 1;
            proof {
                assert(rest@.skip(head@.len() as int + 1) =~= s@.skip(i as int));
                assert(spelled(out@) =~= spelled(done).push(head@));
                assert(spelled(done) + (seq![head@] + pieces(s@.skip(i as int), mark))
                    =~= spelled(out@) + pieces(s@.skip(i as int), mark));
            }
        } else {
            out.push(rest);
            assert(spelled(out@) =~= spelled(done) + seq![rest@]);
            return out;
        }
    }
}

/// Cutting never makes a text longer.
proof fn lemma_before_shorter(s: Seq<char>, stops: Seq<char>)
    ensures
        before(s, stops).len() <= s.len(),
    decreases s.len(),
{
    if s.len() > 0 && !stops.contains(s[0]) {
        lemma_before_shorter(s.skip(1), stops);
    }
}

/// There is always a first piece.
pub proof fn lemma_pieces_nonempty(s: Seq<char>, mark: char)
    ensures
        pieces(s, mark).len() > 0,
{
}

/// There is more than one piece exactly where the mark occurs.
pub proof fn lemma_pieces_divided(s: Seq<char>, mark: char)
    ensures
        pieces(s, mark).len() > 1 <==> s.contains(mark),
{
    lemma_before_whole(s, mark);
    let head = before(s, seq![mark]);
    if head.len() < s.len() {
        lemma_pieces_nonempty(s.skip(head.len() as int + 1), mark);
    }
}

/// A cut leaves all of a text exactly where the mark does not occur in it.
proof fn lemma_before_whole(s: Seq<char>, mark: char)
    ensures
        before(s, seq![mark]).len() <= s.len(),
        before(s, seq![mark]).len() < s.len() <==> s.contains(mark),
    decreases s.len(),
{
    if s.len() > 0 {
        lemma_before_whole(s.skip(1), mark);
        assert(seq![mark][0] == mark);
        if s[0] != mark {
            assert(!seq![mark].contains(s[0]));
            if s.contains(mark) {
                let i = s.index_of(mark);
                assert(s.skip(1)[i - 1] == mark);
            }
            if s.skip(1).contains(mark) {
                let i = s.skip(1).index_of(mark);
                assert(s[i + 1] == mark);
            }
        }
    }
}

// --------------------------------------------------------------- replacing

/// `s` with every copy of `pat` replaced by `with`, from the left and without
/// overlaps. An empty `pat` stands before every character and at the end.
pub open spec fn replaced(s: Seq<char>, pat: Seq<char>, with: Seq<char>) -> Seq<char>
    decreases s.len(),
{
    if pat.len() == 0 {
        if s.len() == 0 {
            with
        } else {
            with + seq![s[0]] + replaced(s.skip(1), pat, with)
        }
    } else {
        match found(s, pat) {
            Some(i) => if 0 <= i <= s.len() - pat.len() {
                s.take(i) + with + replaced(s.skip(i + pat.len()), pat, with)
            } else {
                s
            },
            None => s,
        }
    }
}

/// Replaces every copy of `pat` in `s` by `with`.
pub fn replace(s: &str, pat: &str, with: &str) -> (r: String)
    ensures
        r@ == replaced(s@, pat@, with@),
{
    let text: Vec<char> = chars_of(s);
    let p: Vec<char> = chars_of(pat);
    let mut out: String = String::new();
    let mut i: usize = 0;
    assert(text@.skip(0) =~= text@);
    assert(replaced(s@, pat@, with@) =~= out@ + replaced(text@.skip(0), pat@, with@));
    if p.len() == 0 {
        while i < text.len()
            invariant
                i <= text@.len(),
                pat@.len() == 0,
                replaced(s@, pat@, with@) == out@ + replaced(text@.skip(i as int), pat@, with@),
            decreases text@.len() - i,
        {
            let ghost before = out@;
            out.append(with);
            out.push(text[i]);
            proof {
                let rest = text@.skip(i as int);
                assert(rest.skip(1) =~= text@.skip(i + 1));
                assert(before + replaced(rest, pat@, with@) =~= out@ + replaced(
                    text@.skip(i + 1),
                    pat@,
                    with@,
                ));
            }
            i += 1;
        }
        out.append(with);
        return out;
    }
    loop
        invariant
            i <= text@.len(),
            p@ == pat@,
            pat@.len() > 0,
            replaced(s@, pat@, with@) == out@ + replaced(text@.skip(i as int), pat@, with@),
        decreases text@.len() - i,
    {
        let rest: &[char] = slice_subrange(text.as_slice(), i, text.len());
        assert(rest@ =~= text@.skip(i as int));
        let ghost before = out@;
        match find(rest, p.as_slice()) {
            Some(k) => {
                let head: String = text_of(slice_subrange(rest, 0, k));
                out.append(head.as_str());
                out.append(with);
                proof {
                    assert(rest@.subrange(0, k as int) =~= rest@.take(k as int));
                    assert(rest@.skip(k + pat@.len()) =~= text@.skip(i + k + pat@.len()));
                    assert(before + replaced(rest@, pat@, with@) =~= out@ + replaced(
                        text@.skip(i + k + pat@.len()),
                        pat@,
                        with@,
                    ));
                }
                i = i + k + p.len();
            },
            None => {
                let tail: String = text_of(rest);
                out.append(tail.as_str());
                return out;
            },
        }
    }
}

/// Replacing what does not occur changes nothing.
pub proof fn replacing_nothing(s: Seq<char>, pat: Seq<char>, with: Seq<char>)
    requires
        pat.len() > 0,
        !occurs(s, pat),
    ensures
        replaced(s, pat, with) == s,
{
    lemma_found(s, pat);
}

/// What is left of a text without its closing copies of `tail` does not end in
/// another one, and begins as the text did.
pub proof fn without_tail_has_none(s: Seq<char>, tail: Seq<char>)
    requires
        tail.len() > 0,
    ensures
        without_tail(s, tail).is_prefix_of(s),
        without_tail(s, tail).len() >= tail.len() ==> without_tail(s, tail).skip(
            without_tail(s, tail).len() - tail.len(),
        ) != tail,
    decreases s.len(),
{
    if tail.len() <= s.len() && s.skip(s.len() - tail.len()) == tail {
        let front = s.take(s.len() - tail.len());
        without_tail_has_none(front, tail);
        let left = without_tail(front, tail);
        assert(left =~= s.take(left.len() as int));
    } else {
        assert(s =~= s.take(s.len() as int));
    }
}

/// Whether `t`, laid over `with` from offset `k` on, agrees with it wherever the
/// two overlap.
pub open spec fn agrees(t: Seq<char>, with: Seq<char>, k: int) -> bool {
    forall|i: int| 0 <= i < t.len() && 0 <= k + i < with.len() ==> #[trigger] t[i] == with[k + i]
}

/// Whether no copy of `t` can share a character with a copy of `with`.
pub open spec fn clear_of(t: Seq<char>, with: Seq<char>) -> bool {
    t.len() > 0 && forall|k: int| -t.len() < k < with.len() ==> !#[trigger] agrees(t, with, k)
}

/// A text is clear of every text with which it has no character in common.
pub proof fn different_letters_are_clear(t: Seq<char>, with: Seq<char>)
    requires
        t.len() > 0,
        with.len() > 0,
        forall|i: int| 0 <= i < t.len() ==> !with.contains(#[trigger] t[i]),
    ensures
        clear_of(t, with),
{
    assert forall|k: int| -t.len() < k < with.len() implies !#[trigger] agrees(t, with, k) by {
        let i = if k < 0 {
            -k
        } else {
            0
        };
        assert(!with.contains(t[i]));
        assert(with.contains(with[k + i]));
    }
}

/// A copy of `t` in `a + with + b` lies in `a` or in `b` where `t` is clear of
/// `with`.
proof fn lemma_beside(a: Seq<char>, with: Seq<char>, b: Seq<char>, t: Seq<char>, p: int)
    requires
        clear_of(t, with),
        occurs_at(a + with + b, t, p),
    ensures
        occurs_at(a, t, p) || occurs_at(b, t, p - a.len() - with.len()),
{
    let whole = a + with + b;
    let k = p - a.len();
    assert forall|i: int| 0 <= i < t.len() implies #[trigger] t[i] == whole[p + i] by {
        assert(whole.subrange(p, p + t.len())[i] == whole[p + i]);
    }
    if k <= -t.len() {
        assert(a.subrange(p, p + t.len()) =~= t);
    } else if k >= with.len() {
        let q = p - a.len() - with.len();
        assert(b.subrange(q, q + t.len()) =~= t);
    } else {
        assert(agrees(t, with, k));
    }
}

/// Replacing leaves no copy of the replaced text, and makes no copy of a text
/// that was not there, where that text is clear of what is put in.
pub proof fn replacing_leaves_none(s: Seq<char>, pat: Seq<char>, with: Seq<char>, t: Seq<char>)
    requires
        pat.len() > 0,
        clear_of(t, with),
        t == pat || !occurs(s, t),
    ensures
        !occurs(replaced(s, pat, with), t),
    decreases s.len(),
{
    lemma_found(s, pat);
    match found(s, pat) {
        Some(i) => {
            let head = s.take(i);
            let rest = s.skip(i + pat.len());
            if t != pat && occurs(rest, t) {
                let p = choose|p: int| occurs_at(rest, t, p);
                let q = i + pat.len() + p;
                assert(s.subrange(q, q + t.len()) =~= rest.subrange(p, p + t.len()));
                assert(occurs_at(s, t, q));
            }
            replacing_leaves_none(rest, pat, with, t);
            let end = replaced(rest, pat, with);
            assert forall|p: int| !occurs_at(replaced(s, pat, with), t, p) by {
                if occurs_at(head + with + end, t, p) {
                    lemma_beside(head, with, end, t, p);
                    assert(!occurs_at(end, t, p - head.len() - with.len()));
                    assert(s.subrange(p, p + t.len()) =~= head.subrange(p, p + t.len()));
                    assert(occurs_at(s, t, p));
                }
            }
        },
        None => {},
    }
}

// ------------------------------------------------------------- letter case

/// `c` in lower case where it is an ASCII letter, and `c` itself elsewhere.
pub open spec fn lower_char(c: char) -> char {
    if 'A' <= c <= 'Z' {
        (c as u8 + 32) as char
    } else {
        c
    }
}

/// `s` with its ASCII letters in lower case.
pub open spec fn lowered(s: Seq<char>) -> Seq<char> {
    Seq::new(s.len(), |i: int| lower_char(s[i]))
}

/// A text in lower case has no letters left to lower.
pub proof fn lowered_twice(s: Seq<char>)
    ensures
        lowered(lowered(s)) == lowered(s),
{
    assert(lowered(lowered(s)) =~= lowered(s));
}

/// `c` in ASCII lower case.
fn to_lower(c: char) -> (r: char)
    ensures
        r == lower_char(c),
{
    if 'A' <= c && c <= 'Z' {
        (c as u8 + 32) as char
    } else {
        c
    }
}

/// The text of `s` in ASCII lower case.
pub fn lower(s: &[char]) -> (r: String)
    ensures
        r@ == lowered(s@),
{
    let mut out: String = String::new();
    let mut i: usize = 0;
    assert(out@ =~= lowered(s@).take(0));
    while i < s.len()
        invariant
            i <= s@.len(),
            out@ == lowered(s@).take(i as int),
        decreases s@.len() - i,
    {
        out.push(to_lower(s[i]));
        i += 1;
        assert(lowered(s@).take(i as int) =~= lowered(s@).take(i - 1).push(lowered(s@)[i - 1]));
    }
    assert(lowered(s@).take(i as int) =~= lowered(s@));
    out
}

/// Whether `a` and `b` differ at most in the case of ASCII letters.
pub fn same_letters(a: &str, b: &str) -> (r: bool)
    ensures
        r == (lowered(a@) == lowered(b@)),
{
    let x: Vec<char> = chars_of(a);
    let y: Vec<char> = chars_of(b);
    if x.len() != y.len() {
        assert(lowered(a@).len() != lowered(b@).len());
        return false;
    }
    let mut i: usize = 0;
    while i < x.len()
        invariant
            i <= x@.len(),
            x@.len() == y@.len(),
            x@ == a@,
            y@ == b@,
            forall|j: int| 0 <= j < i ==> lower_char(x@[j]) == lower_char(y@[j]),
        decreases x@.len() - i,
    {
        if to_lower(x[i]) != to_lower(y[i]) {
            assert(lowered(a@)[i as int] != lowered(b@)[i as int]);
            return false;
        }
        i += 1;
    }
    assert(lowered(a@) =~= lowered(b@));
    true
}

// ---------------------------------------------------------------- numbers

/// The character of a decimal digit.
pub open spec fn digit(d: int) -> char {
    (48 + d) as char
}

/// The decimal digits of a natural number.
pub open spec fn digits(n: nat) -> Seq<char>
    decreases n,
{
    if n < 10 {
        seq![digit(n as int)]
    } else {
        digits(n / 10).push(digit((n % 10) as int))
    }
}

/// An integer in decimal notation.
pub open spec fn decimal(n: int) -> Seq<char> {
    if n < 0 {
        seq!['-'] + digits((-n) as nat)
    } else {
        digits(n as nat)
    }
}

/// Whether `s` is one or more decimal digits.
pub open spec fn all_digits(s: Seq<char>) -> bool {
    s.len() > 0 && forall|i: int| 0 <= i < s.len() ==> '0' <= #[trigger] s[i] <= '9'
}

/// The number that a row of decimal digits writes.
pub open spec fn digits_value(s: Seq<char>) -> int
    decreases s.len(),
{
    if s.len() == 0 {
        0
    } else {
        digits_value(s.drop_last()) * 10 + (s.last() as int - 48)
    }
}

/// The integer that `s` writes in decimal: digits, with at most one sign before
/// them.
pub open spec fn integer(s: Seq<char>) -> Option<int> {
    if s.len() > 0 && s[0] == '-' {
        if all_digits(s.skip(1)) {
            Some(-digits_value(s.skip(1)))
        } else {
            None
        }
    } else {
        let d = if s.len() > 0 && s[0] == '+' {
            s.skip(1)
        } else {
            s
        };
        if all_digits(d) {
            Some(digits_value(d))
        } else {
            None
        }
    }
}

/// The `i64` that `s` writes, where there is one.
pub open spec fn parsed_i64(s: Seq<char>) -> Option<i64> {
    match integer(s) {
        Some(n) => if i64::MIN <= n <= i64::MAX {
            Some(n as i64)
        } else {
            None
        },
        None => None,
    }
}

/// More digits never make a number smaller.
proof fn lemma_digits_grow(s: Seq<char>, k: int)
    requires
        all_digits(s),
        0 <= k <= s.len(),
    ensures
        0 <= digits_value(s.take(k)) <= digits_value(s),
    decreases s.len(),
{
    if k < s.len() {
        if s.len() > 1 {
            lemma_digits_grow(s.drop_last(), k);
            assert(s.drop_last().take(k) =~= s.take(k));
        } else {
            assert(s.take(k) =~= Seq::<char>::empty());
            assert(s.drop_last() =~= Seq::<char>::empty());
        }
    } else {
        assert(s.take(k) =~= s);
        if s.len() > 1 {
            lemma_digits_grow(s.drop_last(), s.len() - 1);
        } else {
            assert(s.drop_last() =~= Seq::<char>::empty());
        }
    }
}

/// Reads a row of digits whose value is at most `1 << 63`.
fn read_digits(s: &[char]) -> (r: Option<u64>)
    ensures
        match r {
            Some(n) => all_digits(s@) && n == digits_value(s@) && n <= 0x8000_0000_0000_0000,
            None => !all_digits(s@) || digits_value(s@) > 0x8000_0000_0000_0000,
        },
{
    if s.len() == 0 {
        return None;
    }
    let mut n: u64 = 0;
    let mut i: usize = 0;
    assert(s@.take(0) =~= Seq::<char>::empty());
    while i < s.len()
        invariant
            i <= s@.len(),
            s@.len() > 0,
            n == digits_value(s@.take(i as int)),
            n <= 0x8000_0000_0000_0000,
            forall|j: int| 0 <= j < i ==> '0' <= #[trigger] s@[j] <= '9',
        decreases s@.len() - i,
    {
        let c: char = s[i];
        if c < '0' || c > '9' {
            return None;
        }
        let wide: u128 = n as u128 * 10 + (c as u8 - 48) as u128;
        proof {
            assert(s@.take(i + 1).drop_last() =~= s@.take(i as int));
            assert(wide == digits_value(s@.take(i + 1)));
        }
        if wide > 0x8000_0000_0000_0000 {
            proof {
                if all_digits(s@) {
                    lemma_digits_grow(s@, i + 1);
                }
            }
            return None;
        }
        n = wide as u64;
        i += 1;
    }
    assert(s@.take(i as int) =~= s@);
    Some(n)
}

/// Reads an `i64` in decimal notation.
pub fn parse_i64(s: &str) -> (r: Option<i64>)
    ensures
        r == parsed_i64(s@),
{
    let text: Vec<char> = chars_of(s);
    let total: usize = text.len();
    if total > 0 && text[0] == '-' {
        let rest: &[char] = slice_subrange(text.as_slice(), 1, total);
        assert(rest@ =~= s@.skip(1));
        match read_digits(rest) {
            Some(n) => if n == 0x8000_0000_0000_0000 {
                Some(i64::MIN)
            } else {
                Some(-(n as i64))
            },
            None => None,
        }
    } else {
        let from: usize = if total > 0 && text[0] == '+' {
            1
        } else {
            0
        };
        let rest: &[char] = slice_subrange(text.as_slice(), from, total);
        proof {
            if from == 1 {
                assert(rest@ =~= s@.skip(1));
            } else {
                assert(rest@ =~= s@);
            }
        }
        match read_digits(rest) {
            Some(n) => if n < 0x8000_0000_0000_0000 {
                Some(n as i64)
            } else {
                None
            },
            None => None,
        }
    }
}

// ------------------------------------------------------------------- order

/// Whether `a` comes strictly before `b`, by code points from the left.
pub open spec fn precedes(a: Seq<char>, b: Seq<char>) -> bool
    decreases a.len(),
{
    if b.len() == 0 {
        false
    } else if a.len() == 0 {
        true
    } else if a[0] != b[0] {
        a[0] < b[0]
    } else {
        precedes(a.skip(1), b.skip(1))
    }
}

/// `precedes` is a strict total order.
pub proof fn precedes_is_strict(a: Seq<char>, b: Seq<char>)
    ensures
        precedes(a, b) ==> !precedes(b, a) && a != b,
        precedes(a, b) || precedes(b, a) || a == b,
    decreases a.len(),
{
    if a.len() > 0 && b.len() > 0 && a[0] == b[0] {
        precedes_is_strict(a.skip(1), b.skip(1));
        if a.skip(1) == b.skip(1) {
            assert(a =~= seq![a[0]] + a.skip(1));
            assert(b =~= seq![b[0]] + b.skip(1));
        }
    } else if a.len() == 0 && b.len() == 0 {
        assert(a =~= b);
    }
}

/// `precedes` is transitive.
pub proof fn precedes_is_transitive(a: Seq<char>, b: Seq<char>, c: Seq<char>)
    requires
        precedes(a, b),
        precedes(b, c),
    ensures
        precedes(a, c),
    decreases a.len(),
{
    if a.len() > 0 && a[0] == b[0] && b[0] == c[0] {
        precedes_is_transitive(a.skip(1), b.skip(1), c.skip(1));
    }
}

/// Whether `a` comes strictly before `b`.
pub fn comes_before(a: &str, b: &str) -> (r: bool)
    ensures
        r == precedes(a@, b@),
{
    let x: Vec<char> = chars_of(a);
    let y: Vec<char> = chars_of(b);
    let mut i: usize = 0;
    assert(x@.skip(0) =~= x@);
    assert(y@.skip(0) =~= y@);
    while i < x.len() && i < y.len() && x[i] == y[i]
        invariant
            i <= x@.len(),
            i <= y@.len(),
            precedes(a@, b@) == precedes(x@.skip(i as int), y@.skip(i as int)),
        decreases x@.len() - i,
    {
        assert(x@.skip(i as int).skip(1) =~= x@.skip(i + 1));
        assert(y@.skip(i as int).skip(1) =~= y@.skip(i + 1));
        i += 1;
    }
    if i == y.len() {
        false
    } else if i == x.len() {
        true
    } else {
        x[i] < y[i]
    }
}

// --------------------------------------------------------------------- laws

/// White space is what Unicode calls so: the controls from tab to carriage return,
/// the next-line control, the spaces, and the line and paragraph separators.
pub proof fn white_space_is_unicodes(c: char)
    ensures
        is_white(c) <==> {
            let n = c as int;
            ||| 9 <= n <= 13
            ||| n == 32 || n == 133 || n == 160 || n == 5760
            ||| 8192 <= n <= 8202
            ||| n == 8232 || n == 8233 || n == 8239 || n == 8287 || n == 12288
        },
{
}

/// Leading white space goes, and nothing behind it.
proof fn lemma_start_trimmed(w: Seq<char>, t: Seq<char>)
    requires
        forall|i: int| 0 <= i < w.len() ==> is_white(#[trigger] w[i]),
        t.len() > 0 ==> !is_white(t[0]),
    ensures
        trimmed_start(w + t) == t,
    decreases w.len(),
{
    if w.len() == 0 {
        assert(w + t =~= t);
    } else {
        assert((w + t).skip(1) =~= w.skip(1) + t);
        assert((w + t)[0] == w[0]);
        lemma_start_trimmed(w.skip(1), t);
    }
}

/// Trailing white space goes, and nothing before it.
proof fn lemma_end_trimmed(t: Seq<char>, w: Seq<char>)
    requires
        forall|i: int| 0 <= i < w.len() ==> is_white(#[trigger] w[i]),
        t.len() > 0 ==> !is_white(t.last()),
    ensures
        trimmed_end(t + w) == t,
    decreases w.len(),
{
    if w.len() == 0 {
        assert(t + w =~= t);
    } else {
        assert((t + w).drop_last() =~= t + w.drop_last());
        assert((t + w).last() == w.last());
        lemma_end_trimmed(t, w.drop_last());
    }
}

/// Trimming takes white space at both ends away, and nothing else.
pub proof fn trimming_drops_white_space_alone(front: Seq<char>, t: Seq<char>, back: Seq<char>)
    requires
        forall|i: int| 0 <= i < front.len() ==> is_white(#[trigger] front[i]),
        forall|i: int| 0 <= i < back.len() ==> is_white(#[trigger] back[i]),
        t.len() > 0 ==> !is_white(t[0]) && !is_white(t.last()),
    ensures
        trimmed(front + t + back) == t,
{
    if t.len() == 0 {
        let none = Seq::<char>::empty();
        assert(front + t + back =~= front + back + none);
        assert forall|i: int| 0 <= i < (front + back).len() implies is_white(
            #[trigger] (front + back)[i],
        ) by {
            if i < front.len() {
                assert(is_white(front[i]));
            } else {
                assert(is_white(back[i - front.len()]));
            }
        }
        lemma_start_trimmed(front + back, none);
        assert(trimmed_end(none) == none);
        assert(t =~= none);
    } else {
        assert(front + t + back =~= front + (t + back));
        assert((t + back)[0] == t[0]);
        lemma_start_trimmed(front, t + back);
        lemma_end_trimmed(t, back);
    }
}

/// A closing copy of the tail goes, one copy after the other, and a text that does
/// not end in the tail stays as it is.
pub proof fn tails_go_one_by_one(s: Seq<char>, tail: Seq<char>)
    requires
        tail.len() > 0,
    ensures
        without_tail(s + tail, tail) == without_tail(s, tail),
        !(exists|front: Seq<char>| s == #[trigger] (front + tail)) ==> without_tail(s, tail) == s,
{
    assert((s + tail).skip(s.len() as int) =~= tail);
    assert((s + tail).take(s.len() as int) =~= s);
    if tail.len() <= s.len() && s.skip(s.len() - tail.len()) == tail {
        let front = s.take(s.len() - tail.len());
        assert(s =~= front + tail);
    }
}

/// A text begins with its head, what follows the head is the rest, and a text whose
/// head is found is that head with the rest behind it.
pub proof fn prefixes_come_first(s: Seq<char>, head: Seq<char>, rest: Seq<char>)
    ensures
        has_prefix(head + rest, head),
        after_prefix(head + rest, head) == Some(rest),
        after_prefix(s, head) == Some(rest) ==> s == head + rest,
        has_prefix(s, head) ==> s == head + s.skip(head.len() as int),
        after_prefix(s, head) is None ==> !has_prefix(s, head),
{
    assert((head + rest).take(head.len() as int) =~= head);
    assert((head + rest).skip(head.len() as int) =~= rest);
    if has_prefix(s, head) {
        assert(s =~= head + s.skip(head.len() as int));
    }
}

/// What stands between two texts occurs behind the first of them, and where a text
/// occurs, it stands between the rest.
pub proof fn copies_stand_between(a: Seq<char>, pat: Seq<char>, b: Seq<char>)
    ensures
        occurs_at(a + pat + b, pat, a.len() as int),
        occurs(a + pat + b, pat),
        forall|i: int| #[trigger]
            occurs_at(a, pat, i) ==> 0 <= i && a == a.take(i) + pat + a.skip(i + pat.len()),
{
    let whole = a + pat + b;
    assert(whole.subrange(a.len() as int, (a.len() + pat.len()) as int) =~= pat);
    assert(occurs_at(whole, pat, a.len() as int));
    assert forall|i: int| #[trigger] occurs_at(a, pat, i) implies 0 <= i && a == a.take(i) + pat
        + a.skip(i + pat.len()) by {
        assert(a =~= a.take(i) + a.subrange(i, i + pat.len()) + a.skip(i + pat.len()));
    }
}

/// A cut is made right before the first stop, and not at all where there is none.
pub proof fn cuts_come_before_the_first_stop(
    a: Seq<char>,
    stop: char,
    b: Seq<char>,
    stops: Seq<char>,
)
    requires
        forall|i: int| 0 <= i < a.len() ==> !stops.contains(#[trigger] a[i]),
    ensures
        before(a, stops) == a,
        stops.contains(stop) ==> before(a + seq![stop] + b, stops) == a,
    decreases a.len(),
{
    let whole = a + seq![stop] + b;
    if a.len() > 0 {
        assert(!stops.contains(a[0]));
        assert(whole[0] == a[0]);
        assert(whole.skip(1) =~= a.skip(1) + seq![stop] + b);
        assert forall|i: int| 0 <= i < a.skip(1).len() implies !stops.contains(
            #[trigger] a.skip(1)[i],
        ) by {
            assert(a.skip(1)[i] == a[i + 1]);
        }
        cuts_come_before_the_first_stop(a.skip(1), stop, b, stops);
        assert(seq![a[0]] + a.skip(1) =~= a);
    } else {
        assert(whole[0] == stop);
        assert(before(a, stops) =~= a);
        assert(Seq::<char>::empty() =~= a);
    }
}

/// A cut leaves the beginning of a text.
pub proof fn lemma_before_is_prefix(s: Seq<char>, stops: Seq<char>)
    ensures
        before(s, stops).len() <= s.len(),
        before(s, stops) == s.take(before(s, stops).len() as int),
        s.len() > 0 && !stops.contains(s[0]) ==> before(s, stops).len() > 0,
    decreases s.len(),
{
    if s.len() > 0 && !stops.contains(s[0]) {
        lemma_before_is_prefix(s.skip(1), stops);
        let n = before(s.skip(1), stops).len() as int;
        assert(seq![s[0]] + s.skip(1).take(n) =~= s.take(n + 1));
    } else {
        assert(s.take(0) =~= Seq::<char>::empty());
    }
}

/// A cut goes past whatever holds no stop.
pub proof fn lemma_before_behind(a: Seq<char>, b: Seq<char>, stops: Seq<char>)
    requires
        forall|i: int| 0 <= i < a.len() ==> !stops.contains(#[trigger] a[i]),
    ensures
        before(a + b, stops) == a + before(b, stops),
    decreases a.len(),
{
    if a.len() == 0 {
        assert(a + b =~= b);
        assert(a + before(b, stops) =~= before(b, stops));
    } else {
        assert(!stops.contains(a[0]));
        assert((a + b)[0] == a[0]);
        assert((a + b).skip(1) =~= a.skip(1) + b);
        assert forall|i: int| 0 <= i < a.skip(1).len() implies !stops.contains(
            #[trigger] a.skip(1)[i],
        ) by {
            assert(a.skip(1)[i] == a[i + 1]);
        }
        lemma_before_behind(a.skip(1), b, stops);
        assert(seq![a[0]] + (a.skip(1) + before(b, stops)) =~= a + before(b, stops));
    }
}

/// A text is divided at the first copy of the mark, and not at all where there is
/// none.
pub proof fn marks_divide_at_the_first(a: Seq<char>, mark: Seq<char>, b: Seq<char>)
    requires
        forall|j: int| 0 <= j < a.len() ==> !#[trigger] occurs_at(a + mark + b, mark, j),
    ensures
        sides(a + mark + b, mark) == Some((a, b)),
        forall|s: Seq<char>| !occurs(s, mark) ==> #[trigger] sides(s, mark) is None,
{
    let whole = a + mark + b;
    copies_stand_between(a, mark, b);
    lemma_found(whole, mark);
    assert(occurs_first(whole, mark, a.len() as int));
    assert(whole.take(a.len() as int) =~= a);
    assert(whole.skip((a.len() + mark.len()) as int) =~= b);
}

/// Splitting undoes joining with the mark: the pieces on both sides of a mark are
/// the pieces of the two sides, and a text without the mark is one piece.
pub proof fn splitting_undoes_joining(a: Seq<char>, mark: char, b: Seq<char>)
    ensures
        pieces(a + seq![mark] + b, mark) == pieces(a, mark) + pieces(b, mark),
        !a.contains(mark) ==> pieces(a, mark) == seq![a],
    decreases a.len(),
{
    let whole = a + seq![mark] + b;
    let stops = seq![mark];
    assert(stops[0] == mark);
    lemma_before_whole(a, mark);
    if a.contains(mark) {
        let head = before(a, stops);
        let n = head.len() as int;
        lemma_before_first(a, mark);
        let rest = a.skip(n + 1);
        assert(a =~= head + seq![mark] + rest);
        assert(whole =~= head + seq![mark] + (rest + seq![mark] + b));
        before_holds_no_stop(a, stops);
        assert forall|i: int| 0 <= i < head.len() implies !stops.contains(#[trigger] head[i]) by {
            assert(head.contains(head[i]));
        }
        cuts_come_before_the_first_stop(head, mark, rest + seq![mark] + b, stops);
        assert(whole.skip(n + 1) =~= rest + seq![mark] + b);
        splitting_undoes_joining(rest, mark, b);
        assert(seq![head] + (pieces(rest, mark) + pieces(b, mark)) =~= (seq![head] + pieces(
            rest,
            mark,
        )) + pieces(b, mark));
    } else {
        assert forall|i: int| 0 <= i < a.len() implies !stops.contains(#[trigger] a[i]) by {
            assert(a.contains(a[i]));
        }
        cuts_come_before_the_first_stop(a, mark, b, stops);
        assert(whole.skip(a.len() as int + 1) =~= b);
    }
}

/// What is cut off before a mark is followed by it.
proof fn lemma_before_first(s: Seq<char>, mark: char)
    requires
        s.contains(mark),
    ensures
        ({
            let n = before(s, seq![mark]).len() as int;
            n < s.len() && s[n] == mark && before(s, seq![mark]) == s.take(n)
        }),
    decreases s.len(),
{
    assert(seq![mark][0] == mark);
    if s[0] == mark {
        assert(s.take(0) =~= Seq::<char>::empty());
    } else {
        assert(!seq![mark].contains(s[0]));
        let i = s.index_of(mark);
        assert(s.skip(1)[i - 1] == mark);
        lemma_before_first(s.skip(1), mark);
        let n = before(s.skip(1), seq![mark]).len() as int;
        assert(seq![s[0]] + s.skip(1).take(n) =~= s.take(n + 1));
    }
}

/// The first copy is replaced, what stands before it stays, and what stands behind
/// it is treated in the same way.
pub proof fn replacing_goes_from_the_left(
    a: Seq<char>,
    pat: Seq<char>,
    b: Seq<char>,
    with: Seq<char>,
)
    requires
        pat.len() > 0,
        forall|j: int| 0 <= j < a.len() ==> !#[trigger] occurs_at(a + pat + b, pat, j),
    ensures
        replaced(a + pat + b, pat, with) == a + with + replaced(b, pat, with),
{
    let whole = a + pat + b;
    copies_stand_between(a, pat, b);
    lemma_found(whole, pat);
    assert(occurs_first(whole, pat, a.len() as int));
    assert(whole.take(a.len() as int) =~= a);
    assert(whole.skip((a.len() + pat.len()) as int) =~= b);
}

/// Replacing the empty text puts the replacement before every character and at the
/// end.
pub proof fn replacing_the_empty_text(c: char, s: Seq<char>, with: Seq<char>)
    ensures
        replaced(Seq::empty(), Seq::empty(), with) == with,
        replaced(seq![c] + s, Seq::empty(), with) == with + seq![c] + replaced(
            s,
            Seq::empty(),
            with,
        ),
{
    assert((seq![c] + s).skip(1) =~= s);
}

/// Lowering moves the letters from A to Z to those from a to z, and leaves every
/// other character and the length alone.
pub proof fn lowering_moves_ascii_letters_alone(s: Seq<char>)
    ensures
        lowered(s).len() == s.len(),
        forall|i: int|
            0 <= i < s.len() ==> (#[trigger] lowered(s)[i]) as int == s[i] as int + (if 65
                <= s[i] as int <= 90 {
                32int
            } else {
                0int
            }),
{
}

/// The digits of a number are digits, and write that number.
proof fn lemma_digits(n: nat)
    ensures
        all_digits(digits(n)),
        digits_value(digits(n)) == n,
    decreases n,
{
    if n < 10 {
        assert(digits(n).drop_last() =~= Seq::<char>::empty());
        assert(digits_value(Seq::<char>::empty()) == 0);
    } else {
        lemma_digits(n / 10);
        let front = digits(n / 10);
        let d = digit((n % 10) as int);
        assert(front.push(d).drop_last() =~= front);
        assert forall|i: int| 0 <= i < digits(n).len() implies '0' <= #[trigger] digits(n)[i]
            <= '9' by {
            if i < front.len() {
                assert(digits(n)[i] == front[i]);
            }
        }
    }
}

/// A number is read back from its decimal notation, where an `i64` can hold it.
pub proof fn numbers_are_read_back(n: int)
    ensures
        parsed_i64(decimal(n)) == if i64::MIN <= n <= i64::MAX {
            Some(n as i64)
        } else {
            None::<i64>
        },
{
    if n < 0 {
        lemma_digits((-n) as nat);
        assert(decimal(n).skip(1) =~= digits((-n) as nat));
    } else {
        lemma_digits(n as nat);
        assert('0' <= digits(n as nat)[0] <= '9');
    }
}

/// A plus sign and leading zeros change nothing about a number, and a minus sign makes
/// it negative; and a text with anything but digits behind its first character, or with
/// neither a digit nor a sign and a digit at its beginning, is no number.
pub proof fn numbers_are_signed_digits(s: Seq<char>, d: Seq<char>)
    requires
        all_digits(d),
    ensures
        parsed_i64(seq!['+'] + d) == parsed_i64(d),
        parsed_i64(seq!['0'] + d) == parsed_i64(d),
        parsed_i64(seq!['-'] + (seq!['0'] + d)) == parsed_i64(seq!['-'] + d),
        parsed_i64(d) matches Some(n) ==> parsed_i64(seq!['-'] + d) == Some((-n) as i64),
        s.len() == 0 ==> parsed_i64(s) is None,
        s.len() == 1 && !('0' <= s[0] <= '9') ==> parsed_i64(s) is None,
        s.len() > 0 && !('0' <= s[0] <= '9' || s[0] == '+' || s[0] == '-') ==> parsed_i64(
            s,
        ) is None,
        forall|i: int|
            0 < i < s.len() && !('0' <= #[trigger] s[i] <= '9') ==> parsed_i64(s) is None,
{
    assert((seq!['+'] + d).skip(1) =~= d);
    assert('0' <= d[0] <= '9');
    let z = seq!['0'] + d;
    assert forall|i: int| 0 <= i < z.len() implies '0' <= #[trigger] z[i] <= '9' by {
        if i > 0 {
            assert(z[i] == d[i - 1]);
        }
    }
    lemma_leading_zero(d);
    assert((seq!['-'] + z).skip(1) =~= z);
    assert((seq!['-'] + d).skip(1) =~= d);
    lemma_digits_grow(d, 0);
    assert(d.take(0) =~= Seq::<char>::empty());
    if s.len() > 0 && !('0' <= s[0] <= '9') {
        assert(!all_digits(s));
    }
    assert forall|i: int| 0 < i < s.len() && !('0' <= #[trigger] s[i] <= '9') implies parsed_i64(
        s,
    ) is None by {
        assert(s.skip(1)[i - 1] == s[i]);
        assert(!all_digits(s.skip(1)));
        assert(!all_digits(s));
    }
}

/// A leading zero adds nothing.
proof fn lemma_leading_zero(d: Seq<char>)
    ensures
        digits_value(seq!['0'] + d) == digits_value(d),
    decreases d.len(),
{
    let z = seq!['0'] + d;
    if d.len() == 0 {
        assert(z.drop_last() =~= d);
    } else {
        assert(z.drop_last() =~= seq!['0'] + d.drop_last());
        lemma_leading_zero(d.drop_last());
    }
}

/// The first difference decides the order of two texts, by its code points; and a
/// text comes before every longer one that begins with it.
pub proof fn the_first_difference_decides(
    head: Seq<char>,
    x: char,
    y: char,
    a: Seq<char>,
    b: Seq<char>,
)
    ensures
        x != y ==> (precedes(head + seq![x] + a, head + seq![y] + b) <==> (x as int)
            < (y as int)),
        precedes(head, head + seq![x] + a),
    decreases head.len(),
{
    let s = head + seq![x] + a;
    let t = head + seq![y] + b;
    if head.len() > 0 {
        assert(s.skip(1) =~= head.skip(1) + seq![x] + a);
        assert(t.skip(1) =~= head.skip(1) + seq![y] + b);
        assert(s[0] == head[0] && t[0] == head[0]);
        the_first_difference_decides(head.skip(1), x, y, a, b);
    } else {
        assert(s[0] == x && t[0] == y);
    }
}

} // verus!
