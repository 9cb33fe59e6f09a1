//! Character-level string helpers with exact specifications over `Seq<char>`.

use vstd::prelude::*;

verus! {

broadcast use vstd::string::group_string_axioms;

/// The characters of `s`, in order.
pub fn chars_of(s: &str) -> (r: Vec<char>)
    ensures
        r@ == s@,
{
    let mut r: Vec<char> = Vec::new();
    for c in it: s.chars()
        invariant
            r@ == it.seq().take(it.index()),
            it.seq() == s@,
    {
        r.push(c);
    }
    r
}

/// Appends one character to a `String` (std `String::push`).
#[verifier::external_body]
fn push_char(s: &mut String, c: char)
    ensures
        final(s)@ == old(s)@.push(c),
{
    s.push(c);
}

/// The string made of the characters of `v`, in order.
pub fn string_from(v: &[char]) -> (r: String)
    ensures
        r@ == v@,
{
    let mut r = String::new();
    let mut i: usize = 0;
    while i < v.len()
        invariant
            i <= v.len(),
            r@ == v@.take(i as int),
        decreases v.len() - i,
    {
        push_char(&mut r, v[i]);
        assert(v@.take(i + 1) =~= v@.take(i as int).push(v@[i as int]));
        i += 1;
    }
    assert(v@.take(v.len() as int) =~= v@);
    r
}

/// `s` with every backslash turned into a forward slash.
pub open spec fn forward_slashes(s: Seq<char>) -> Seq<char> {
    s.map_values(|c: char| if c == '\\' { '/' } else { c })
}

pub fn to_forward_slashes(v: &[char]) -> (r: Vec<char>)
    ensures
        r@ == forward_slashes(v@),
{
    let mut r: Vec<char> = Vec::new();
    let mut i: usize = 0;
    while i < v.len()
        invariant
            i <= v.len(),
            r@ == forward_slashes(v@.take(i as int)),
        decreases v.len() - i,
    {
        let c = v[i];
        r.push(if c == '\\' { '/' } else { c });
        assert(forward_slashes(v@.take(i + 1)) =~= forward_slashes(v@.take(i as int)).push(
            if c == '\\' { '/' } else { c },
        ));
        i += 1;
    }
    assert(v@.take(v.len() as int) =~= v@);
    r
}

pub open spec fn has_prefix(s: Seq<char>, p: Seq<char>) -> bool {
    p.len() <= s.len() && s.take(p.len() as int) == p
}

pub open spec fn has_suffix(s: Seq<char>, p: Seq<char>) -> bool {
    p.len() <= s.len() && s.skip(s.len() - p.len()) == p
}

pub fn starts_with(s: &[char], p: &[char]) -> (r: bool)
    ensures
        r == has_prefix(s@, p@),
{
    if p.len() > s.len() {
        return false;
    }
    let mut i: usize = 0;
    while i < p.len()
        invariant
            p.len() <= s.len(),
            i <= p.len(),
            s@.take(i as int) == p@.take(i as int),
        decreases p.len() - i,
    {
        if s[i] != p[i] {
            assert(s@.take(p.len() as int)[i as int] != p@[i as int]);
            return false;
        }
        assert(s@.take(i + 1) =~= s@.take(i as int).push(s@[i as int]));
        assert(p@.take(i + 1) =~= p@.take(i as int).push(p@[i as int]));
        i += 1;
    }
    assert(p@.take(p.len() as int) =~= p@);
    true
}

pub fn ends_with(s: &[char], p: &[char]) -> (r: bool)
    ensures
        r == has_suffix(s@, p@),
{
    if p.len() > s.len() {
        return false;
    }
    let off = s.len() - p.len();
    let mut i: usize = 0;
    while i < p.len()
        invariant
            p.len() <= s.len(),
            off == s.len() - p.len(),
            i <= p.len(),
            forall|k: int| 0 <= k < i ==> s@[off + k] == p@[k],
        decreases p.len() - i,
    {
        if s[off + i] != p[i] {
            assert(s@.skip(off as int)[i as int] != p@[i as int]);
            return false;
        }
        i += 1;
    }
    assert(s@.skip(off as int) =~= p@);
    true
}

pub fn chars_eq(a: &[char], b: &[char]) -> (r: bool)
    ensures
        r == (a@ == b@),
{
    if a.len() != b.len() {
        return false;
    }
    let mut i: usize = 0;
    while i < a.len()
        invariant
            a.len() == b.len(),
            i <= a.len(),
            forall|k: int| 0 <= k < i ==> a@[k] == b@[k],
        decreases a.len() - i,
    {
        if a[i] != b[i] {
            return false;
        }
        i += 1;
    }
    assert(a@ =~= b@);
    true
}

} // verus!

verus! {

/// The character views of a sequence of strings.
pub open spec fn views(v: Seq<String>) -> Seq<Seq<char>> {
    v.map_values(|s: String| s@)
}

/// The view of an optional string.
pub open spec fn opt_view(o: Option<String>) -> Option<Seq<char>> {
    match o {
        Some(s) => Some(s@),
        None => None,
    }
}

/// Whether `v` holds a string equal to `s`.
pub fn contains_string(v: &[String], s: &String) -> (r: bool)
    ensures
        r == views(v@).contains(s@),
{
    let mut i: usize = 0;
    while i < v.len()
        invariant
            i <= v.len(),
            forall|k: int| 0 <= k < i ==> v@[k]@ != s@,
        decreases v.len() - i,
    {
        if v[i] == *s {
            assert(views(v@)[i as int] == s@);
            return true;
        }
        i += 1;
    }
    assert forall|k: int| 0 <= k < views(v@).len() implies views(v@)[k] != s@ by {
        assert(views(v@)[k] == v@[k]@);
    }
    false
}

} // verus!

verus! {

/// The set of character views of a sequence of strings.
pub open spec fn string_set(v: Seq<String>) -> Set<Seq<char>> {
    Set::new(|x: Seq<char>| views(v).contains(x))
}

/// `views` distributes over concatenation, and so `string_set` turns it into union.
pub proof fn lemma_string_set_concat(a: Seq<String>, b: Seq<String>)
    ensures
        views(a + b) == views(a) + views(b),
        string_set(a + b) == string_set(a).union(string_set(b)),
{
    assert(views(a + b) =~= views(a) + views(b));
    assert forall|x: Seq<char>| string_set(a + b).contains(x) <==> string_set(a).union(
        string_set(b),
    ).contains(x) by {
        if views(a + b).contains(x) {
            let k = choose|k: int| 0 <= k < views(a + b).len() && views(a + b)[k] == x;
            if k < a.len() {
                assert(views(a)[k] == x);
            } else {
                assert(views(b)[k - a.len()] == x);
            }
        }
        if views(a).contains(x) {
            let k = choose|k: int| 0 <= k < views(a).len() && views(a)[k] == x;
            assert(views(a + b)[k] == x);
        }
        if views(b).contains(x) {
            let k = choose|k: int| 0 <= k < views(b).len() && views(b)[k] == x;
            assert(views(a + b)[a.len() + k] == x);
        }
    }
    assert(string_set(a + b) =~= string_set(a).union(string_set(b)));
}

/// Appends clones of all of `src` to `dst`.
pub fn extend_strings(dst: &mut Vec<String>, src: &[String])
    ensures
        final(dst)@ == old(dst)@ + src@,
{
    let mut i: usize = 0;
    while i < src.len()
        invariant
            i <= src.len(),
            dst@ == old(dst)@ + src@.take(i as int),
        decreases src.len() - i,
    {
        dst.push(src[i].clone());
        assert(src@.take(i + 1) =~= src@.take(i as int).push(src@[i as int]));
        assert(old(dst)@ + src@.take(i + 1) =~= (old(dst)@ + src@.take(i as int)).push(src@[i as int]));
        i += 1;
    }
    assert(src@.take(src.len() as int) =~= src@);
}

} // verus!

verus! {

/// The characters of `s` after its last `c` (all of `s` when it holds none).
pub open spec fn after_last(s: Seq<char>, c: char) -> Seq<char>
    decreases s.len(),
{
    if s.len() == 0 {
        s
    } else if s.last() == c {
        Seq::empty()
    } else {
        after_last(s.drop_last(), c).push(s.last())
    }
}

/// The characters of `s` before its first `c` (all of `s` when it holds none).
pub open spec fn before_first(s: Seq<char>, c: char) -> Seq<char>
    decreases s.len(),
{
    if s.len() == 0 {
        s
    } else if s[0] == c {
        Seq::empty()
    } else {
        seq![s[0]] + before_first(s.drop_first(), c)
    }
}

pub fn suffix_after_last(s: &[char], c: char) -> (r: Vec<char>)
    ensures
        r@ == after_last(s@, c),
{
    let mut start: usize = s.len();
    assert(s@.take(s.len() as int) =~= s@);
    assert(s@ + s@.skip(s.len() as int) =~= s@);
    while start > 0 && s[start - 1] != c
        invariant
            start <= s.len(),
            after_last(s@, c) == after_last(s@.take(start as int), c) + s@.skip(start as int),
        decreases start,
    {
        proof {
            let t = s@.take(start as int);
            assert(t.drop_last() =~= s@.take(start - 1));
            assert(t.last() == s@[start - 1]);
            assert(s@.skip(start - 1) =~= seq![s@[start - 1]] + s@.skip(start as int));
            assert(after_last(t.drop_last(), c).push(t.last()) + s@.skip(start as int)
                =~= after_last(s@.take(start - 1), c) + s@.skip(start - 1));
        }
        start -= 1;
    }
    proof {
        if start > 0 {
            assert(s@.take(start as int).last() == c);
        } else {
            assert(s@.take(0).len() == 0);
        }
        assert(after_last(s@.take(start as int), c).len() == 0);
        assert(after_last(s@, c) =~= s@.skip(start as int));
    }
    let mut r: Vec<char> = Vec::new();
    let mut i: usize = start;
    while i < s.len()
        invariant
            start <= i <= s.len(),
            r@ == s@.subrange(start as int, i as int),
            after_last(s@, c) == s@.skip(start as int),
        decreases s.len() - i,
    {
        r.push(s[i]);
        assert(s@.subrange(start as int, i + 1) =~= s@.subrange(start as int, i as int).push(s@[i as int]));
        i += 1;
    }
    assert(r@ =~= s@.skip(start as int));
    r
}

pub fn prefix_before_first(s: &[char], c: char) -> (r: Vec<char>)
    ensures
        r@ == before_first(s@, c),
{
    let mut r: Vec<char> = Vec::new();
    let mut i: usize = 0;
    assert(s@.skip(0) =~= s@);
    assert(r@ + before_first(s@, c) =~= before_first(s@, c));
    while i < s.len() && s[i] != c
        invariant
            i <= s.len(),
            r@ == s@.take(i as int),
            before_first(s@, c) == r@ + before_first(s@.skip(i as int), c),
        decreases s.len() - i,
    {
        proof {
            let t = s@.skip(i as int);
            assert(t[0] == s@[i as int]);
            assert(t.drop_first() =~= s@.skip(i + 1));
            assert(s@.take(i + 1) =~= s@.take(i as int).push(s@[i as int]));
            assert(r@ + before_first(t, c) =~= s@.take(i + 1) + before_first(s@.skip(i + 1), c));
        }
        r.push(s[i]);
        i += 1;
    }
    proof {
        let t = s@.skip(i as int);
        if i < s.len() {
            assert(t[0] == c);
        }
        assert(before_first(t, c).len() == 0);
        assert(before_first(s@, c) =~= r@);
    }
    r
}

/// Whether `pat` occurs in `s` starting at index `i`.
pub open spec fn occurs_at(s: Seq<char>, pat: Seq<char>, i: int) -> bool {
    0 <= i && i + pat.len() <= s.len() && s.subrange(i, i + pat.len()) == pat
}

/// The first index at or after `i` where `pat` occurs in `s`.
pub open spec fn first_occurrence_from(s: Seq<char>, pat: Seq<char>, i: int) -> Option<int>
    decreases s.len() + 1 - i,
{
    if i < 0 || i + pat.len() > s.len() {
        None
    } else if occurs_at(s, pat, i) {
        Some(i)
    } else {
        first_occurrence_from(s, pat, i + 1)
    }
}

/// A found occurrence really is one.
pub proof fn lemma_first_occurrence_occurs(s: Seq<char>, pat: Seq<char>, i: int)
    ensures
        first_occurrence_from(s, pat, i) matches Some(k) ==> occurs_at(s, pat, k) && i <= k,
    decreases s.len() + 1 - i,
{
    if !(i < 0 || i + pat.len() > s.len()) && !occurs_at(s, pat, i) {
        lemma_first_occurrence_occurs(s, pat, i + 1);
    }
}

pub fn find_first(s: &[char], pat: &[char]) -> (r: Option<usize>)
    ensures
        r matches Some(k) ==> first_occurrence_from(s@, pat@, 0) == Some(k as int)
            && k + pat.len() <= s.len(),
        r is None ==> first_occurrence_from(s@, pat@, 0) is None,
{
    if pat.len() > s.len() {
        return None;
    }
    if pat.len() == 0 {
        assert(s@.subrange(0, 0) =~= pat@);
        return Some(0);
    }
    let last = s.len() - pat.len();
    let mut i: usize = 0;
    while i <= last
        invariant
            last == s.len() - pat.len(),
            pat.len() > 0,
            i <= last + 1,
            first_occurrence_from(s@, pat@, 0) == first_occurrence_from(s@, pat@, i as int),
        decreases last + 1 - i,
    {
        let mut j: usize = 0;
        let mut ok = true;
        while j < pat.len()
            invariant
                i <= last,
                last == s.len() - pat.len(),
                j <= pat.len(),
                ok ==> forall|k: int| 0 <= k < j ==> s@[i + k] == pat@[k],
                !ok ==> !occurs_at(s@, pat@, i as int),
            decreases pat.len() - j,
        {
            if ok && s[i + j] != pat[j] {
                assert(s@.subrange(i as int, i + pat.len())[j as int] != pat@[j as int]);
                ok = false;
            }
            j += 1;
        }
        if ok {
            assert(s@.subrange(i as int, i + pat.len()) =~= pat@);
            proof {
                lemma_first_occurrence_occurs(s@, pat@, i as int);
            }
            return Some(i);
        }
        i += 1;
    }
    None
}

pub open spec fn lower_char(c: char) -> char {
    if 'A' <= c <= 'Z' {
        ((c as u8) + 32) as u8 as char
    } else {
        c
    }
}

/// ASCII lower-casing (`str::to_ascii_lowercase`): only `A`..`Z` change.
pub open spec fn ascii_lower(s: Seq<char>) -> Seq<char> {
    s.map_values(|c: char| lower_char(c))
}

pub fn to_ascii_lower(s: &[char]) -> (r: Vec<char>)
    ensures
        r@ == ascii_lower(s@),
{
    let mut r: Vec<char> = Vec::new();
    let mut i: usize = 0;
    while i < s.len()
        invariant
            i <= s.len(),
            r@ == ascii_lower(s@.take(i as int)),
        decreases s.len() - i,
    {
        let c = s[i];
        let l = if 'A' <= c && c <= 'Z' {
            ((c as u8) + 32) as char
        } else {
            c
        };
        r.push(l);
        assert(ascii_lower(s@.take(i + 1)) =~= ascii_lower(s@.take(i as int)).push(lower_char(c)));
        i += 1;
    }
    assert(s@.take(s.len() as int) =~= s@);
    r
}

} // verus!

verus! {

/// Clones of all of `v`, in order.
pub fn clone_strings(v: &[String]) -> (r: Vec<String>)
    ensures
        r@ == v@,
{
    let mut r: Vec<String> = Vec::new();
    extend_strings(&mut r, v);
    assert(r@ =~= v@);
    r
}

pub fn clone_opt_string(o: &Option<String>) -> (r: Option<String>)
    ensures
        r == *o,
{
    match o {
        Some(s) => Some(s.clone()),
        None => None,
    }
}

} // verus!

verus! {

/// `v` from index `start` on.
pub fn slice_from(v: &[char], start: usize) -> (r: Vec<char>)
    requires
        start <= v.len(),
    ensures
        r@ == v@.skip(start as int),
{
    let mut r: Vec<char> = Vec::new();
    let mut i: usize = start;
    while i < v.len()
        invariant
            start <= i <= v.len(),
            r@ == v@.subrange(start as int, i as int),
        decreases v.len() - i,
    {
        r.push(v[i]);
        assert(v@.subrange(start as int, i + 1) =~= v@.subrange(start as int, i as int).push(v@[i as int]));
        i += 1;
    }
    assert(r@ =~= v@.skip(start as int));
    r
}

/// The first `end` characters of `v`.
pub fn slice_to(v: &[char], end: usize) -> (r: Vec<char>)
    requires
        end <= v.len(),
    ensures
        r@ == v@.take(end as int),
{
    let mut r: Vec<char> = Vec::new();
    let mut i: usize = 0;
    while i < end
        invariant
            i <= end <= v.len(),
            r@ == v@.take(i as int),
        decreases end - i,
    {
        r.push(v[i]);
        assert(v@.take(i + 1) =~= v@.take(i as int).push(v@[i as int]));
        i += 1;
    }
    r
}

} // verus!

verus! {

/// The characters of `s` before its first `a` or `b`.
pub open spec fn before_first_of(s: Seq<char>, a: char, b: char) -> Seq<char>
    decreases s.len(),
{
    if s.len() == 0 {
        s
    } else if s[0] == a || s[0] == b {
        Seq::empty()
    } else {
        seq![s[0]] + before_first_of(s.drop_first(), a, b)
    }
}

pub fn prefix_before_first_of(s: &[char], a: char, b: char) -> (r: Vec<char>)
    ensures
        r@ == before_first_of(s@, a, b),
{
    let mut r: Vec<char> = Vec::new();
    let mut i: usize = 0;
    assert(s@.skip(0) =~= s@);
    assert(r@ + before_first_of(s@, a, b) =~= before_first_of(s@, a, b));
    while i < s.len() && s[i] != a && s[i] != b
        invariant
            i <= s.len(),
            r@ == s@.take(i as int),
            before_first_of(s@, a, b) == r@ + before_first_of(s@.skip(i as int), a, b),
        decreases s.len() - i,
    {
        proof {
            let t = s@.skip(i as int);
            assert(t[0] == s@[i as int]);
            assert(t.drop_first() =~= s@.skip(i + 1));
            assert(s@.take(i + 1) =~= s@.take(i as int).push(s@[i as int]));
            assert(r@ + before_first_of(t, a, b) =~= s@.take(i + 1) + before_first_of(s@.skip(i + 1), a, b));
        }
        r.push(s[i]);
        i += 1;
    }
    proof {
        let t = s@.skip(i as int);
        if i < s.len() {
            assert(t[0] == s@[i as int]);
        }
        assert(before_first_of(t, a, b).len() == 0);
        assert(before_first_of(s@, a, b) =~= r@);
    }
    r
}

} // verus!

verus! {

/// Unicode `White_Space` (what `char::is_whitespace` tests).
pub open spec fn is_white(c: char) -> bool {
    ||| '\u{9}' <= c <= '\u{d}'
    ||| c == ' '
    ||| c == '\u{85}'
    ||| c == '\u{a0}'
    ||| c == '\u{1680}'
    ||| '\u{2000}' <= c <= '\u{200a}'
    ||| c == '\u{2028}'
    ||| c == '\u{2029}'
    ||| c == '\u{202f}'
    ||| c == '\u{205f}'
    ||| c == '\u{3000}'
}

pub fn is_white_char(c: char) -> (r: bool)
    ensures
        r == is_white(c),
{
    ('\u{9}' <= c && c <= '\u{d}') || c == ' ' || c == '\u{85}' || c == '\u{a0}' || c == '\u{1680}'
        || ('\u{2000}' <= c && c <= '\u{200a}') || c == '\u{2028}' || c == '\u{2029}' || c
        == '\u{202f}' || c == '\u{205f}' || c == '\u{3000}'
}

/// `s` without its trailing white space.
pub open spec fn trim_end_white(s: Seq<char>) -> Seq<char>
    decreases s.len(),
{
    if s.len() > 0 && is_white(s.last()) {
        trim_end_white(s.drop_last())
    } else {
        s
    }
}

/// `s` without its leading white space.
pub open spec fn trim_start_white(s: Seq<char>) -> Seq<char>
    decreases s.len(),
{
    if s.len() > 0 && is_white(s[0]) {
        trim_start_white(s.drop_first())
    } else {
        s
    }
}

/// `str::trim`: `s` without leading and trailing white space.
pub open spec fn trim_white(s: Seq<char>) -> Seq<char> {
    trim_end_white(trim_start_white(s))
}

pub fn trim(s: &[char]) -> (r: Vec<char>)
    ensures
        r@ == trim_white(s@),
{
    let mut start: usize = 0;
    assert(s@.skip(0) =~= s@);
    while start < s.len() && is_white_char(s[start])
        invariant
            start <= s.len(),
            trim_start_white(s@) == trim_start_white(s@.skip(start as int)),
        decreases s.len() - start,
    {
        assert(s@.skip(start as int).drop_first() =~= s@.skip(start + 1));
        start += 1;
    }
    let mut end: usize = s.len();
    let ghost front = s@.skip(start as int);
    assert(front =~= s@.subrange(start as int, end as int));
    while end > start && is_white_char(s[end - 1])
        invariant
            start <= end <= s.len(),
            front == s@.skip(start as int),
            trim_end_white(front) == trim_end_white(s@.subrange(start as int, end as int)),
        decreases end,
    {
        assert(s@.subrange(start as int, end as int).drop_last() =~= s@.subrange(start as int, end - 1));
        end -= 1;
    }
    let mut r: Vec<char> = Vec::new();
    let mut i: usize = start;
    while i < end
        invariant
            start <= i <= end <= s.len(),
            r@ == s@.subrange(start as int, i as int),
        decreases end - i,
    {
        r.push(s[i]);
        assert(s@.subrange(start as int, i + 1) =~= s@.subrange(start as int, i as int).push(s@[i as int]));
        i += 1;
    }
    proof {
        if start < s.len() {
            assert(s@.skip(start as int)[0] == s@[start as int]);
        }
        assert(trim_start_white(s@.skip(start as int)) == s@.skip(start as int));
        let t = s@.subrange(start as int, end as int);
        if end > start {
            assert(t.last() == s@[end - 1]);
        }
        assert(trim_end_white(t) == t);
    }
    r
}

/// The pieces of `s` between occurrences of `c` (`str::split` with a char).
pub open spec fn split_on(s: Seq<char>, c: char) -> Seq<Seq<char>>
    decreases s.len(),
{
    let head = before_first(s, c);
    if head.len() >= s.len() {
        seq![s]
    } else {
        seq![head] + split_on(s.skip(head.len() + 1int), c)
    }
}

proof fn lemma_before_first_len(s: Seq<char>, c: char)
    ensures
        before_first(s, c).len() <= s.len(),
        before_first(s, c) == s.take(before_first(s, c).len() as int),
        before_first(s, c).len() < s.len() ==> s[before_first(s, c).len() as int] == c,
        forall|k: int| 0 <= k < before_first(s, c).len() ==> s[k] != c,
    decreases s.len(),
{
    if s.len() > 0 && s[0] != c {
        lemma_before_first_len(s.drop_first(), c);
        let t = before_first(s.drop_first(), c);
        assert(before_first(s, c) =~= s.take(t.len() + 1int));
        assert forall|k: int| 0 <= k < before_first(s, c).len() implies s[k] != c by {
            if k > 0 {
                assert(s[k] == s.drop_first()[k - 1]);
            }
        }
    } else if s.len() > 0 {
        assert(before_first(s, c) =~= s.take(0));
    }
}

/// The pieces of `s` split on `c`.
pub fn split_chars(s: &[char], c: char) -> (r: Vec<Vec<char>>)
    ensures
        char_views(r@) == split_on(s@, c),
{
    let mut r: Vec<Vec<char>> = Vec::new();
    let mut rest: Vec<char> = slice_from(s, 0);
    assert(s@.skip(0) =~= s@);
    loop
        invariant_except_break
            split_on(s@, c) == char_views(r@) + split_on(rest@, c),
        ensures
            split_on(s@, c) == char_views(r@),
        decreases rest.len(),
    {
        let head = prefix_before_first(&rest, c);
        proof {
            lemma_before_first_len(rest@, c);
        }
        let ghost old_r = r@;
        if head.len() >= rest.len() {
            let ghost last = rest@;
            r.push(rest);
            assert(char_views(r@) =~= char_views(old_r).push(last));
            assert(split_on(last, c) =~= seq![last]);
            assert(char_views(old_r) + seq![last] =~= char_views(old_r).push(last));
            break;
        }
        let next = slice_from(&rest, head.len() + 1);
        let ghost hv = head@;
        r.push(head);
        assert(char_views(r@) =~= char_views(old_r).push(hv));
        assert(split_on(rest@, c) == seq![hv] + split_on(next@, c));
        assert(char_views(old_r) + (seq![hv] + split_on(next@, c)) =~= char_views(old_r).push(hv) + split_on(next@, c));
        rest = next;
    }
    r
}

} // verus!

verus! {

/// `s` without its trailing `c` characters (`str::trim_end_matches` with a char).
pub open spec fn trim_end_char(s: Seq<char>, c: char) -> Seq<char>
    decreases s.len(),
{
    if s.len() > 0 && s.last() == c {
        trim_end_char(s.drop_last(), c)
    } else {
        s
    }
}

pub fn trim_end_matching(s: &[char], c: char) -> (r: Vec<char>)
    ensures
        r@ == trim_end_char(s@, c),
{
    let mut end: usize = s.len();
    assert(s@.take(s.len() as int) =~= s@);
    while end > 0 && s[end - 1] == c
        invariant
            end <= s.len(),
            trim_end_char(s@, c) == trim_end_char(s@.take(end as int), c),
        decreases end,
    {
        assert(s@.take(end as int).drop_last() =~= s@.take(end - 1));
        end -= 1;
    }
    proof {
        if end > 0 {
            assert(s@.take(end as int).last() == s@[end - 1]);
        }
    }
    slice_to(s, end)
}

/// The character views of a sequence of character vectors.
pub open spec fn char_views(v: Seq<Vec<char>>) -> Seq<Seq<char>> {
    v.map_values(|x: Vec<char>| x@)
}

/// `s` without later repeats, keeping first occurrences in order.
pub open spec fn dedup_seq(s: Seq<Seq<char>>) -> Seq<Seq<char>>
    decreases s.len(),
{
    if s.len() == 0 {
        s
    } else {
        let rest = dedup_seq(s.drop_last());
        if s.drop_last().contains(s.last()) {
            rest
        } else {
            rest.push(s.last())
        }
    }
}

/// Removing repeats keeps the first element first.
pub proof fn lemma_dedup_seq_first(s: Seq<Seq<char>>)
    requires
        s.len() > 0,
    ensures
        dedup_seq(s).len() > 0,
        dedup_seq(s)[0] == s[0],
    decreases s.len(),
{
    let init = s.drop_last();
    if init.len() == 0 {
        assert(!init.contains(s.last()));
        assert(dedup_seq(init) =~= Seq::<Seq<char>>::empty());
    } else {
        lemma_dedup_seq_first(init);
        assert(init[0] == s[0]);
    }
}

/// `dedup_seq` keeps exactly the elements of its input, each once.
pub proof fn lemma_dedup_seq(s: Seq<Seq<char>>)
    ensures
        forall|x: Seq<char>| #[trigger] dedup_seq(s).contains(x) <==> s.contains(x),
        dedup_seq(s).no_duplicates(),
    decreases s.len(),
{
    if s.len() > 0 {
        let init = s.drop_last();
        lemma_dedup_seq(init);
        let rest = dedup_seq(init);
        assert forall|x: Seq<char>| #[trigger] dedup_seq(s).contains(x) <==> s.contains(x) by {
            if s.contains(x) {
                let k = choose|k: int| 0 <= k < s.len() && s[k] == x;
                if k < init.len() {
                    assert(init[k] == x);
                    assert(init.contains(x));
                    assert(rest.contains(x));
                    let m = choose|m: int| 0 <= m < rest.len() && rest[m] == x;
                    if !init.contains(s.last()) {
                        assert(rest.push(s.last())[m] == x);
                    }
                } else if init.contains(s.last()) {
                    assert(rest.contains(x));
                } else {
                    assert(rest.push(s.last())[rest.len() as int] == x);
                }
            }
            if dedup_seq(s).contains(x) {
                let m = choose|m: int| 0 <= m < dedup_seq(s).len() && dedup_seq(s)[m] == x;
                if m < rest.len() {
                    assert(rest[m] == x);
                    assert(rest.contains(x));
                    let k = choose|k: int| 0 <= k < init.len() && init[k] == x;
                    assert(s[k] == x);
                } else {
                    assert(s[s.len() - 1] == x);
                }
            }
        }
        if !init.contains(s.last()) {
            let d = rest.push(s.last());
            assert forall|i: int, j: int| 0 <= i < d.len() && 0 <= j < d.len() && i != j implies d[i] != d[j] by {
                if i < rest.len() && j < rest.len() {
                } else if i < rest.len() {
                    assert(rest.contains(d[i]));
                } else {
                    assert(rest.contains(d[j]));
                }
            }
        }
    }
}

/// Whether `v` holds `s`, comparing characters.
pub fn contains_chars(v: &[Vec<char>], s: &[char]) -> (r: bool)
    ensures
        r == char_views(v@).contains(s@),
{
    let mut i: usize = 0;
    while i < v.len()
        invariant
            i <= v.len(),
            forall|k: int| 0 <= k < i ==> v@[k]@ != s@,
        decreases v.len() - i,
    {
        if chars_eq(&v[i], s) {
            assert(char_views(v@)[i as int] == s@);
            return true;
        }
        i += 1;
    }
    assert forall|k: int| 0 <= k < char_views(v@).len() implies #[trigger] char_views(v@)[k] != s@ by {
        assert(char_views(v@)[k] == v@[k]@);
    }
    false
}

/// `v` without later repeats.
pub fn dedup_chars(v: Vec<Vec<char>>) -> (r: Vec<Vec<char>>)
    ensures
        char_views(r@) == dedup_seq(char_views(v@)),
{
    let ghost s = char_views(v@);
    let mut r: Vec<Vec<char>> = Vec::new();
    let mut i: usize = 0;
    while i < v.len()
        invariant
            i <= v.len(),
            s == char_views(v@),
            char_views(r@) == dedup_seq(s.take(i as int)),
            forall|x: Seq<char>| #[trigger] char_views(r@).contains(x) <==> s.take(i as int).contains(x),
        decreases v.len() - i,
    {
        let ghost old_r = r@;
        assert(forall|x: Seq<char>| #[trigger] char_views(old_r).contains(x) <==> s.take(i as int).contains(x));
        let ghost t = s.take(i + 1);
        assert(t.drop_last() =~= s.take(i as int));
        assert(t.last() == v@[i as int]@);
        let present = contains_chars(&r, &v[i]);
        if !present {
            r.push(slice_from(&v[i], 0));
            assert(v@[i as int]@.skip(0) =~= v@[i as int]@);
            assert(char_views(r@) =~= char_views(old_r).push(v@[i as int]@));
        }
        assert forall|x: Seq<char>| #[trigger] char_views(r@).contains(x) <==> t.contains(x) by {
            if t.contains(x) {
                let k = choose|k: int| 0 <= k < t.len() && t[k] == x;
                if k < i {
                    assert(s.take(i as int)[k] == x);
                    assert(char_views(old_r).contains(x));
                    let m = choose|m: int| 0 <= m < char_views(old_r).len() && char_views(old_r)[m] == x;
                    assert(char_views(r@)[m] == x);
                } else if present {
                } else {
                    assert(char_views(r@)[old_r.len() as int] == x);
                }
            }
            if char_views(r@).contains(x) {
                let m = choose|m: int| 0 <= m < char_views(r@).len() && char_views(r@)[m] == x;
                if m < old_r.len() {
                    assert(char_views(old_r)[m] == x);
                    assert(char_views(old_r).contains(x));
                    let k = choose|k: int| 0 <= k < s.take(i as int).len() && s.take(i as int)[k] == x;
                    assert(t[k] == x);
                } else {
                    assert(t[i as int] == x);
                }
            }
        }
        i += 1;
    }
    assert(s.take(v.len() as int) =~= s);
    r
}

} // verus!
