//! Text as sequences of characters.
//!
//! Every string in this crate is reasoned about through its view, a
//! `Seq<char>`. The specification functions below say what the usual text
//! operations mean on such sequences; the executable functions of the same
//! kind are proved to compute exactly that.

use vstd::prelude::*;
use vstd::slice::slice_subrange;

verus! {

/// `String::push` appends one character at the end of the string.
pub assume_specification[ String::push ](s: &mut String, c: char)
    ensures
        final(s)@ == old(s)@.push(c),
;

/// The characters with the Unicode property `White_Space`.
pub open spec fn white_space(c: char) -> bool {
    let n = c as u32;
    ||| 0x9 <= n <= 0xD
    ||| n == 0x20
    ||| n == 0x85
    ||| n == 0xA0
    ||| n == 0x1680
    ||| 0x2000 <= n <= 0x200A
    ||| n == 0x2028
    ||| n == 0x2029
    ||| n == 0x202F
    ||| n == 0x205F
    ||| n == 0x3000
}

/// `s` without its leading white space.
pub open spec fn trim_start(s: Seq<char>) -> Seq<char>
    decreases s.len(),
{
    if s.len() > 0 && white_space(s[0]) {
        trim_start(s.drop_first())
    } else {
        s
    }
}

/// `s` without its trailing white space.
pub open spec fn trim_end(s: Seq<char>) -> Seq<char>
    decreases s.len(),
{
    if s.len() > 0 && white_space(s.last()) {
        trim_end(s.drop_last())
    } else {
        s
    }
}

/// `s` without leading and trailing white space.
pub open spec fn trim(s: Seq<char>) -> Seq<char> {
    trim_end(trim_start(s))
}

/// `s` without the copies of `c` at its end.
pub open spec fn trim_end_char(s: Seq<char>, c: char) -> Seq<char>
    decreases s.len(),
{
    if s.len() > 0 && s.last() == c {
        trim_end_char(s.drop_last(), c)
    } else {
        s
    }
}

/// The pieces of `s` between the occurrences of `sep`; one more than there are
/// separators.
pub open spec fn split(s: Seq<char>, sep: char) -> Seq<Seq<char>>
    decreases s.len(),
{
    if s.len() == 0 {
        seq![Seq::<char>::empty()]
    } else {
        let before = split(s.drop_last(), sep);
        if s.last() == sep {
            before.push(Seq::<char>::empty())
        } else {
            before.drop_last().push(before.last().push(s.last()))
        }
    }
}

/// The maximal runs of characters of `s` that are no white space, in order.
pub open spec fn words(s: Seq<char>) -> Seq<Seq<char>>
    decreases s.len(),
{
    if s.len() == 0 {
        Seq::empty()
    } else {
        let before = words(s.drop_last());
        if white_space(s.last()) {
            before
        } else if s.len() == 1 || white_space(s[s.len() - 2]) {
            before.push(seq![s.last()])
        } else {
            before.drop_last().push(before.last().push(s.last()))
        }
    }
}

/// `parts` one after the other, with `sep` between neighbours.
pub open spec fn join(parts: Seq<Seq<char>>, sep: Seq<char>) -> Seq<char>
    decreases parts.len(),
{
    if parts.len() == 0 {
        Seq::empty()
    } else if parts.len() == 1 {
        parts[0]
    } else {
        join(parts.drop_last(), sep) + sep + parts.last()
    }
}

/// `sub` stands in `s` from position `i` on.
pub open spec fn occurs_at(s: Seq<char>, sub: Seq<char>, i: int) -> bool {
    &&& 0 <= i
    &&& i + sub.len() <= s.len()
    &&& s.subrange(i, i + sub.len()) == sub
}

/// `sub` stands in `s` from position `i` on, and from no earlier one.
pub open spec fn first_occurs_at(s: Seq<char>, sub: Seq<char>, i: int) -> bool {
    &&& occurs_at(s, sub, i)
    &&& forall|j: int| 0 <= j < i ==> !occurs_at(s, sub, j)
}

/// `sub` stands somewhere in `s`.
pub open spec fn contains(s: Seq<char>, sub: Seq<char>) -> bool {
    exists|i: int| occurs_at(s, sub, i)
}

/// The first position of `sub` in `s`.
pub open spec fn find(s: Seq<char>, sub: Seq<char>) -> Option<int> {
    if contains(s, sub) {
        Some(choose|i: int| first_occurs_at(s, sub, i))
    } else {
        None
    }
}

/// `s` begins with `prefix`.
pub open spec fn starts_with(s: Seq<char>, prefix: Seq<char>) -> bool {
    occurs_at(s, prefix, 0)
}

/// `a` stands before `b`, or is `b`, in the lexicographic order of code points.
pub open spec fn lex_le(a: Seq<char>, b: Seq<char>) -> bool
    decreases a.len(),
{
    if a.len() == 0 {
        true
    } else if b.len() == 0 {
        false
    } else if a[0] != b[0] {
        (a[0] as int) < (b[0] as int)
    } else {
        lex_le(a.drop_first(), b.drop_first())
    }
}

/// The decimal digit `d`.
pub open spec fn digit(d: nat) -> char {
    (48 + d) as char
}

/// `n` in decimal notation.
pub open spec fn decimal(n: nat) -> Seq<char>
    decreases n,
{
    if n < 10 {
        seq![digit(n)]
    } else {
        decimal(n / 10).push(digit(n % 10))
    }
}

/// `n` in decimal notation, with a minus sign where it is negative.
pub open spec fn signed_decimal(n: int) -> Seq<char> {
    if n < 0 {
        seq!['-'] + decimal((-n) as nat)
    } else {
        decimal(n as nat)
    }
}

/// The views of a sequence of strings.
pub open spec fn texts(parts: Seq<String>) -> Seq<Seq<char>> {
    Seq::new(parts.len(), |i: int| parts[i]@)
}

/// The view of an optional string.
pub open spec fn opt_text(s: Option<String>) -> Option<Seq<char>> {
    match s {
        Some(t) => Some(t@),
        None => None,
    }
}

/// The view of an optional borrowed string.
pub open spec fn opt_str(s: Option<&str>) -> Option<Seq<char>> {
    match s {
        Some(t) => Some(t@),
        None => None,
    }
}

/// The characters of `s`.
pub fn chars_of(s: &str) -> (r: Vec<char>)
    ensures
        r@ == s@,
{
    let mut v: Vec<char> = Vec::new();
    for c in it: s.chars()
        invariant
            v@ == it.seq().take(it.index() as int),
            it.seq() == s@,
    {
        v.push(c);
    }
    v
}

/// The string made of the characters `v`.
pub fn string_of(v: &[char]) -> (r: String)
    ensures
        r@ == v@,
{
    let mut s = String::new();
    let mut i: usize = 0;
    while i < v.len()
        invariant
            i <= v.len(),
            s@ == v@.take(i as int),
        decreases v.len() - i,
    {
        s.push(v[i]);
        i += 1;
    }
    s
}

/// Whether two strings hold the same characters.
pub fn same(a: &str, b: &str) -> (r: bool)
    ensures
        r == (a@ == b@),
{
    let x = chars_of(a);
    let y = chars_of(b);
    if x.len() != y.len() {
        return false;
    }
    let mut i: usize = 0;
    while i < x.len()
        invariant
            i <= x.len(),
            x.len() == y.len(),
            x@ == a@,
            y@ == b@,
            forall|j: int| 0 <= j < i ==> x[j] == y[j],
        decreases x.len() - i,
    {
        if x[i] != y[i] {
            return false;
        }
        i += 1;
    }
    assert(a@ =~= b@);
    true
}

/// Whether `c` is white space.
pub fn is_white_space(c: char) -> (r: bool)
    ensures
        r == white_space(c),
{
    let n = c as u32;
    (0x9 <= n && n <= 0xD) || n == 0x20 || n == 0x85 || n == 0xA0 || n == 0x1680 || (0x2000 <= n
        && n <= 0x200A) || n == 0x2028 || n == 0x2029 || n == 0x202F || n == 0x205F || n == 0x3000
}

/// The number of white space characters at the front of `v`.
fn leading_white_space(v: &[char]) -> (r: usize)
    ensures
        r <= v.len(),
        trim_start(v@) == v@.skip(r as int),
{
    let mut i: usize = 0;
    assert(v@.skip(0) =~= v@);
    while i < v.len() && is_white_space(v[i])
        invariant
            i <= v.len(),
            trim_start(v@) == trim_start(v@.skip(i as int)),
        decreases v.len() - i,
    {
        assert(v@.skip(i as int).drop_first() =~= v@.skip(i + 1));
        i += 1;
    }
    i
}

/// The length of `v` without its trailing white space.
fn trimmed_len(v: &[char]) -> (r: usize)
    ensures
        r <= v.len(),
        trim_end(v@) == v@.take(r as int),
{
    let mut i: usize = v.len();
    assert(v@.take(i as int) =~= v@);
    while i > 0 && is_white_space(v[i - 1])
        invariant
            i <= v.len(),
            trim_end(v@) == trim_end(v@.take(i as int)),
        decreases i,
    {
        assert(v@.take(i as int).drop_last() =~= v@.take(i - 1));
        i -= 1;
    }
    i
}

/// `s` without its leading white space.
pub fn trimmed_start(s: &str) -> (r: String)
    ensures
        r@ == trim_start(s@),
{
    let v = chars_of(s);
    let from = leading_white_space(v.as_slice());
    string_of(slice_subrange(v.as_slice(), from, v.len()))
}

/// `s` without its trailing white space.
pub fn trimmed_end(s: &str) -> (r: String)
    ensures
        r@ == trim_end(s@),
{
    let v = chars_of(s);
    let to = trimmed_len(v.as_slice());
    string_of(slice_subrange(v.as_slice(), 0, to))
}

/// `s` without leading and trailing white space.
pub fn trimmed(s: &str) -> (r: String)
    ensures
        r@ == trim(s@),
{
    let front = trimmed_start(s);
    trimmed_end(front.as_str())
}

/// `s` without the copies of `c` at its end.
pub fn trimmed_end_char(s: &str, c: char) -> (r: String)
    ensures
        r@ == trim_end_char(s@, c),
{
    let v = chars_of(s);
    let mut i: usize = v.len();
    assert(v@.take(i as int) =~= v@);
    while i > 0 && v[i - 1] == c
        invariant
            i <= v.len(),
            trim_end_char(v@, c) == trim_end_char(v@.take(i as int), c),
        decreases i,
    {
        assert(v@.take(i as int).drop_last() =~= v@.take(i - 1));
        i -= 1;
    }
    string_of(slice_subrange(v.as_slice(), 0, i))
}

/// The pieces of `s` between the occurrences of `sep`.
pub fn split_on(s: &str, sep: char) -> (r: Vec<String>)
    ensures
        texts(r@) == split(s@, sep),
{
    let v = chars_of(s);
    let mut parts: Vec<String> = Vec::new();
    let mut piece = String::new();
    let mut i: usize = 0;
    assert(v@.take(0) =~= Seq::<char>::empty());
    assert(texts(parts@).push(piece@) =~= split(v@.take(0), sep));
    while i < v.len()
        invariant
            i <= v.len(),
            texts(parts@).push(piece@) == split(v@.take(i as int), sep),
        decreases v.len() - i,
    {
        let ghost before = split(v@.take(i as int), sep);
        assert(v@.take(i + 1).drop_last() =~= v@.take(i as int));
        assert(before.drop_last() =~= texts(parts@));
        assert(before.last() =~= piece@);
        if v[i] == sep {
            parts.push(piece);
            piece = String::new();
            assert(texts(parts@) =~= before);
        } else {
            piece.push(v[i]);
        }
        i += 1;
    }
    assert(v@.take(i as int) =~= v@);
    let ghost whole = texts(parts@).push(piece@);
    parts.push(piece);
    assert(texts(parts@) =~= whole);
    parts
}

/// The maximal runs of characters of `s` that are no white space, in order.
pub fn word_list(s: &str) -> (r: Vec<String>)
    ensures
        texts(r@) == words(s@),
{
    let v = chars_of(s);
    let mut parts: Vec<String> = Vec::new();
    let mut piece = String::new();
    let mut i: usize = 0;
    while i < v.len()
        invariant
            i <= v.len(),
            piece@.len() == 0 <==> (i == 0 || white_space(v[i - 1])),
            words(v@.take(i as int)) == if piece@.len() == 0 {
                texts(parts@)
            } else {
                texts(parts@).push(piece@)
            },
        decreases v.len() - i,
    {
        let ghost before = words(v@.take(i as int));
        assert(v@.take(i + 1).drop_last() =~= v@.take(i as int));
        if is_white_space(v[i]) {
            if !piece.as_str().is_empty() {
                parts.push(piece);
                piece = String::new();
                assert(texts(parts@) =~= before);
            }
        } else {
            proof {
                if piece@.len() > 0 {
                    assert(before.drop_last() =~= texts(parts@));
                    assert(before.last() =~= piece@);
                } else {
                    assert(piece@.push(v[i as int]) =~= seq![v[i as int]]);
                }
            }
            piece.push(v[i]);
        }
        i += 1;
    }
    assert(v@.take(i as int) =~= v@);
    if !piece.as_str().is_empty() {
        let ghost whole = texts(parts@).push(piece@);
        parts.push(piece);
        assert(texts(parts@) =~= whole);
    }
    parts
}

/// `parts` one after the other, with `sep` between neighbours.
pub fn joined(parts: &[String], sep: &str) -> (r: String)
    ensures
        r@ == join(texts(parts@), sep@),
{
    let mut out = String::new();
    let mut i: usize = 0;
    while i < parts.len()
        invariant
            i <= parts.len(),
            out@ == join(texts(parts@).take(i as int), sep@),
        decreases parts.len() - i,
    {
        let ghost all = texts(parts@);
        assert(all.take(i + 1).drop_last() =~= all.take(i as int));
        if i > 0 {
            out.append(sep);
        }
        out.append(parts[i].as_str());
        assert(out@ =~= join(all.take(i + 1), sep@));
        i += 1;
    }
    assert(texts(parts@).take(i as int) =~= texts(parts@));
    out
}

/// Whether `sub` stands in `v` from position `i` on.
fn stands_at(v: &[char], sub: &[char], i: usize) -> (r: bool)
    requires
        i <= v.len(),
    ensures
        r == occurs_at(v@, sub@, i as int),
{
    if sub.len() > v.len() - i {
        return false;
    }
    let mut k: usize = 0;
    while k < sub.len()
        invariant
            k <= sub.len(),
            i + sub.len() <= v.len(),
            forall|j: int| 0 <= j < k ==> v[i + j] == sub[j],
        decreases sub.len() - k,
    {
        if v[i + k] != sub[k] {
            assert(v@.subrange(i as int, i + sub.len())[k as int] != sub[k as int]);
            return false;
        }
        k += 1;
    }
    assert(v@.subrange(i as int, i + sub.len()) =~= sub@);
    true
}

/// Where a first occurrence is, `find` gives it.
pub proof fn lemma_find(s: Seq<char>, sub: Seq<char>, i: int)
    requires
        first_occurs_at(s, sub, i),
    ensures
        find(s, sub) == Some(i),
{
    let c = choose|k: int| first_occurs_at(s, sub, k);
    assert(first_occurs_at(s, sub, c));
    if c < i {
        assert(!occurs_at(s, sub, c));
    } else if i < c {
        assert(!occurs_at(s, sub, i));
    }
}

/// What occurs in a text has a first occurrence there.
pub proof fn lemma_first_occurrence(s: Seq<char>, sub: Seq<char>, i: int) -> (k: int)
    requires
        occurs_at(s, sub, i),
    ensures
        k <= i,
        first_occurs_at(s, sub, k),
        find(s, sub) == Some(k),
    decreases i,
{
    if forall|j: int| 0 <= j < i ==> !occurs_at(s, sub, j) {
        lemma_find(s, sub, i);
        i
    } else {
        let j = choose|j: int| 0 <= j < i && occurs_at(s, sub, j);
        lemma_first_occurrence(s, sub, j)
    }
}

/// The position, in characters, of the first occurrence of `sub` in `s`.
pub fn position_of(s: &str, sub: &str) -> (r: Option<usize>)
    ensures
        match r {
            Some(i) => find(s@, sub@) == Some(i as int) && first_occurs_at(s@, sub@, i as int),
            None => find(s@, sub@) is None,
        },
{
    let v = chars_of(s);
    let w = chars_of(sub);
    if w.len() > v.len() {
        return None;
    }
    let last = v.len() - w.len();
    let mut i: usize = 0;
    while i <= last
        invariant
            i <= last + 1,
            last + w.len() == v.len(),
            v@ == s@,
            w@ == sub@,
            forall|j: int| 0 <= j < i ==> !occurs_at(s@, sub@, j),
        decreases last + 1 - i,
    {
        if stands_at(v.as_slice(), w.as_slice(), i) {
            proof {
                lemma_find(s@, sub@, i as int);
            }
            return Some(i);
        }
        if i == last {
            assert(!contains(s@, sub@));
            return None;
        }
        i += 1;
    }
    None
}

/// Whether `sub` stands somewhere in `s`.
pub fn is_in(sub: &str, s: &str) -> (r: bool)
    ensures
        r == contains(s@, sub@),
{
    match position_of(s, sub) {
        Some(_) => true,
        None => false,
    }
}

/// Whether `s` begins with `prefix`.
pub fn has_prefix(s: &str, prefix: &str) -> (r: bool)
    ensures
        r == starts_with(s@, prefix@),
{
    let v = chars_of(s);
    let w = chars_of(prefix);
    stands_at(v.as_slice(), w.as_slice(), 0)
}

/// Whether the last character of `s` is `c`.
pub fn ends_with_char(s: &str, c: char) -> (r: bool)
    ensures
        r == (s@.len() > 0 && s@.last() == c),
{
    let v = chars_of(s);
    v.len() > 0 && v[v.len() - 1] == c
}

/// Whether the first character of `s` is `c`.
pub fn starts_with_char(s: &str, c: char) -> (r: bool)
    ensures
        r == (s@.len() > 0 && s@[0] == c),
{
    let v = chars_of(s);
    v.len() > 0 && v[0] == c
}

/// The characters of `s` from position `from` up to position `to`.
pub fn slice_of(s: &str, from: usize, to: usize) -> (r: String)
    requires
        from <= to <= s@.len(),
    ensures
        r@ == s@.subrange(from as int, to as int),
{
    let v = chars_of(s);
    string_of(slice_subrange(v.as_slice(), from, to))
}

/// `s` without its first `from` characters.
pub fn rest_of(s: &str, from: usize) -> (r: String)
    requires
        from <= s@.len(),
    ensures
        r@ == s@.skip(from as int),
{
    let v = chars_of(s);
    let r = string_of(slice_subrange(v.as_slice(), from, v.len()));
    assert(r@ =~= s@.skip(from as int));
    r
}

/// Whether `a` is `b` or stands before it in the order of code points.
pub fn in_order(a: &str, b: &str) -> (r: bool)
    ensures
        r == lex_le(a@, b@),
{
    let x = chars_of(a);
    let y = chars_of(b);
    let mut i: usize = 0;
    assert(x@.skip(0) =~= x@);
    assert(y@.skip(0) =~= y@);
    while i < x.len()
        invariant
            i <= x.len(),
            i <= y.len(),
            x@ == a@,
            y@ == b@,
            lex_le(a@, b@) == lex_le(x@.skip(i as int), y@.skip(i as int)),
        decreases x.len() - i,
    {
        if i >= y.len() {
            return false;
        }
        if x[i] != y[i] {
            return x[i] < y[i];
        }
        assert(x@.skip(i as int).drop_first() =~= x@.skip(i + 1));
        assert(y@.skip(i as int).drop_first() =~= y@.skip(i + 1));
        i += 1;
    }
    true
}

/// `n` in decimal notation.
pub fn decimal_text(n: u64) -> (r: String)
    ensures
        r@ == decimal(n as nat),
    decreases n,
{
    if n < 10 {
        let mut s = String::new();
        s.push((48 + n as u8) as char);
        assert(s@ =~= decimal(n as nat));
        s
    } else {
        let mut s = decimal_text(n / 10);
        s.push((48 + (n % 10) as u8) as char);
        s
    }
}

/// `n` in decimal notation, with a minus sign where it is negative.
pub fn signed_decimal_text(n: i64) -> (r: String)
    ensures
        r@ == signed_decimal(n as int),
{
    if n < 0 {
        let magnitude: u64 = (-(n + 1)) as u64 + 1;
        let digits = decimal_text(magnitude);
        let mut s = String::new();
        s.push('-');
        s.append(digits.as_str());
        assert(s@ =~= signed_decimal(n as int));
        s
    } else {
        decimal_text(n as u64)
    }
}

/// Appends `item` to `list`.
pub fn push_text(list: &mut Vec<String>, item: String)
    ensures
        texts(final(list)@) == texts(old(list)@).push(item@),
{
    let ghost before = texts(list@);
    list.push(item);
    assert(texts(list@) =~= before.push(item@));
}

/// A copy of a list of strings.
pub fn copy_texts(parts: &Vec<String>) -> (r: Vec<String>)
    ensures
        texts(r@) == texts(parts@),
{
    let mut out: Vec<String> = Vec::new();
    let mut i: usize = 0;
    while i < parts.len()
        invariant
            i <= parts.len(),
            texts(out@) == texts(parts@).take(i as int),
        decreases parts.len() - i,
    {
        let ghost before = texts(out@);
        out.push(parts[i].clone());
        assert(texts(out@) =~= before.push(parts[i as int]@));
        assert(texts(out@) =~= texts(parts@).take(i + 1));
        i += 1;
    }
    assert(texts(parts@).take(i as int) =~= texts(parts@));
    out
}

/// A text without the separator is one piece.
pub proof fn lemma_split_single(s: Seq<char>, sep: char)
    requires
        !s.contains(sep),
    ensures
        split(s, sep) == seq![s],
    decreases s.len(),
{
    if s.len() > 0 {
        let front = s.drop_last();
        assert forall|i: int| 0 <= i < front.len() implies front[i] != sep by {
            assert(s[i] == front[i]);
        }
        lemma_split_single(front, sep);
        assert(s.last() == s[s.len() - 1]);
        let before = split(front, sep);
        assert(before.last() =~= front);
        assert(before.last().push(s.last()) =~= s);
        assert(split(s, sep) =~= seq![s]);
    } else {
        assert(s =~= Seq::<char>::empty());
    }
}

/// Trimming a trimmed text changes nothing.
pub proof fn lemma_trim_twice(s: Seq<char>)
    ensures
        trim(trim(s)) == trim(s),
{
    let a = trim_start(s);
    let b = trim_end(a);
    lemma_trim_start_front(s);
    lemma_trim_end_back(a);
    lemma_trim_end_prefix(a);
    if b.len() > 0 {
        assert(b[0] == a[0]);
    }
}

/// What `trim_start` leaves does not begin with white space.
pub proof fn lemma_trim_start_front(s: Seq<char>)
    ensures
        trim_start(s).len() > 0 ==> !white_space(trim_start(s)[0]),
    decreases s.len(),
{
    if s.len() > 0 && white_space(s[0]) {
        lemma_trim_start_front(s.drop_first());
    }
}

/// What `trim_end` leaves does not end with white space.
pub proof fn lemma_trim_end_back(s: Seq<char>)
    ensures
        trim_end(s).len() > 0 ==> !white_space(trim_end(s).last()),
    decreases s.len(),
{
    if s.len() > 0 && white_space(s.last()) {
        lemma_trim_end_back(s.drop_last());
    }
}

/// What `trim_end` leaves is the front of the text.
pub proof fn lemma_trim_end_prefix(s: Seq<char>)
    ensures
        trim_end(s).len() <= s.len(),
        trim_end(s) == s.take(trim_end(s).len() as int),
    decreases s.len(),
{
    if s.len() > 0 && white_space(s.last()) {
        lemma_trim_end_prefix(s.drop_last());
        let n = trim_end(s).len() as int;
        assert(s.drop_last().take(n) =~= s.take(n));
    } else {
        assert(s.take(s.len() as int) =~= s);
    }
}

/// What `trim_end` leaves reaches beyond every character that is no white space.
pub proof fn lemma_trim_end_keeps(s: Seq<char>, i: int)
    requires
        0 <= i < s.len(),
        !white_space(s[i]),
    ensures
        trim_end(s).len() > i,
    decreases s.len(),
{
    if white_space(s.last()) {
        lemma_trim_end_keeps(s.drop_last(), i);
    }
}

/// A text that is one word: not empty, and without white space.
pub open spec fn is_word(s: Seq<char>) -> bool {
    &&& s.len() > 0
    &&& forall|i: int| 0 <= i < s.len() ==> !white_space(#[trigger] s[i])
}

/// The words of a text are words.
pub proof fn lemma_words_clean(s: Seq<char>)
    ensures
        forall|i: int| 0 <= i < words(s).len() ==> is_word(#[trigger] words(s)[i]),
        s.len() > 0 && !white_space(s.last()) ==> words(s).len() > 0,
    decreases s.len(),
{
    if s.len() > 0 {
        let front = s.drop_last();
        lemma_words_clean(front);
        let before = words(front);
        if !white_space(s.last()) {
            if s.len() == 1 || white_space(s[s.len() - 2]) {
                assert(is_word(seq![s.last()]));
            } else {
                assert(front.last() == s[s.len() - 2]);
                let longer = before.last().push(s.last());
                assert(is_word(before[before.len() - 1]));
                assert(is_word(longer));
            }
        }
    }
}

/// A space and a word behind a text add that word to its words.
proof fn lemma_words_append(s: Seq<char>, w: Seq<char>)
    requires
        is_word(w),
        s.len() == 0 || white_space(s.last()),
    ensures
        words(s + w) == words(s).push(w),
    decreases w.len(),
{
    let all = s + w;
    assert(all.last() == w.last());
    assert(all.drop_last() =~= s + w.drop_last());
    assert(!white_space(w[w.len() - 1]));
    if w.len() == 1 {
        assert(w.drop_last() =~= Seq::<char>::empty());
        assert(all.drop_last() =~= s);
        assert(w =~= seq![w.last()]);
        if s.len() > 0 {
            assert(all[all.len() - 2] == s.last());
        }
    } else {
        let front = w.drop_last();
        assert(is_word(front));
        lemma_words_append(s, front);
        assert(all[all.len() - 2] == w[w.len() - 2]);
        let before = words(s + front);
        assert(before.drop_last() =~= words(s));
        assert(front.push(w.last()) =~= w);
    }
}

/// The words of words with one space between neighbours are those words.
pub proof fn lemma_words_of_join(parts: Seq<Seq<char>>)
    requires
        forall|i: int| 0 <= i < parts.len() ==> is_word(#[trigger] parts[i]),
    ensures
        words(join(parts, " "@)) == parts,
    decreases parts.len(),
{
    reveal_strlit(" ");
    if parts.len() == 0 {
        assert(parts =~= Seq::<Seq<char>>::empty());
    } else if parts.len() == 1 {
        lemma_words_append(Seq::empty(), parts[0]);
        assert(Seq::<char>::empty() + parts[0] =~= parts[0]);
        assert(words(Seq::<char>::empty()).push(parts[0]) =~= parts);
    } else {
        let front = join(parts.drop_last(), " "@);
        lemma_words_of_join(parts.drop_last());
        assert((front + " "@).drop_last() =~= front);
        assert(words(front + " "@) == words(front));
        lemma_words_append(front + " "@, parts.last());
        assert(parts.drop_last().push(parts.last()) =~= parts);
    }
}

/// Of two texts, one stands before the other.
pub proof fn lemma_lex_total(a: Seq<char>, b: Seq<char>)
    ensures
        lex_le(a, b) || lex_le(b, a),
    decreases a.len(),
{
    if a.len() > 0 && b.len() > 0 && a[0] == b[0] {
        lemma_lex_total(a.drop_first(), b.drop_first());
    }
}

/// The lexicographic order is transitive.
pub proof fn lemma_lex_transitive(a: Seq<char>, b: Seq<char>, c: Seq<char>)
    requires
        lex_le(a, b),
        lex_le(b, c),
    ensures
        lex_le(a, c),
    decreases a.len(),
{
    if a.len() > 0 && b.len() > 0 && c.len() > 0 && a[0] == b[0] && b[0] == c[0] {
        lemma_lex_transitive(a.drop_first(), b.drop_first(), c.drop_first());
    }
}

/// Two texts that stand before each other are the same.
pub proof fn lemma_lex_antisymmetric(a: Seq<char>, b: Seq<char>)
    requires
        lex_le(a, b),
        lex_le(b, a),
    ensures
        a == b,
    decreases a.len(),
{
    if a.len() > 0 && b.len() > 0 {
        lemma_lex_antisymmetric(a.drop_first(), b.drop_first());
        assert(a =~= seq![a[0]] + a.drop_first());
        assert(b =~= seq![b[0]] + b.drop_first());
    } else {
        assert(a =~= b);
    }
}

/// What `trim_start` leaves is the end of the text.
pub proof fn lemma_trim_start_suffix(s: Seq<char>)
    ensures
        trim_start(s).len() <= s.len(),
        trim_start(s) == s.skip(s.len() - trim_start(s).len()),
    decreases s.len(),
{
    if s.len() > 0 && white_space(s[0]) {
        let tail = s.drop_first();
        lemma_trim_start_suffix(tail);
        let k = tail.len() - trim_start(tail).len();
        assert(tail.skip(k) =~= s.skip(k + 1));
    } else {
        assert(s.skip(0) =~= s);
    }
}

/// Different numbers have different decimal notations.
pub proof fn lemma_decimal_injective(a: nat, b: nat)
    requires
        decimal(a) == decimal(b),
    ensures
        a == b,
    decreases a,
{
    lemma_decimal_len(a);
    lemma_decimal_len(b);
    if a < 10 {
        assert(decimal(a)[0] == digit(a) && decimal(b)[0] == digit(b));
        assert(digit(a) as int == 48 + a && digit(b) as int == 48 + b);
    } else {
        let (x, y) = (decimal(a), decimal(b));
        assert(x.drop_last() =~= decimal(a / 10));
        assert(y.drop_last() =~= decimal(b / 10));
        assert(x.last() == digit(a % 10) && y.last() == digit(b % 10));
        assert(digit(a % 10) as int == 48 + a % 10 && digit(b % 10) as int == 48 + b % 10);
        lemma_decimal_injective(a / 10, b / 10);
        assert(a % 10 == b % 10);
    }
}

proof fn lemma_decimal_len(n: nat)
    ensures
        decimal(n).len() >= 1,
        n >= 10 <==> decimal(n).len() >= 2,
    decreases n,
{
    if n >= 10 {
        lemma_decimal_len(n / 10);
    }
}

/// A text stands before itself.
pub proof fn lemma_lex_reflexive(a: Seq<char>)
    ensures
        lex_le(a, a),
    decreases a.len(),
{
    if a.len() > 0 {
        lemma_lex_reflexive(a.drop_first());
    }
}

/// Trimming a text without white space changes nothing.
pub proof fn lemma_trim_clean(s: Seq<char>)
    requires
        forall|i: int| 0 <= i < s.len() ==> !white_space(#[trigger] s[i]),
    ensures
        trim(s) == s,
{
    if s.len() > 0 {
        assert(!white_space(s[0]));
        assert(!white_space(s[s.len() - 1]));
    }
}

/// What holds a character that is no white space is not empty when trimmed.
pub proof fn lemma_trim_keeps(s: Seq<char>, i: int)
    requires
        0 <= i < s.len(),
        !white_space(s[i]),
    ensures
        trim(s).len() > 0,
    decreases s.len(),
{
    if white_space(s[0]) {
        lemma_trim_keeps(s.drop_first(), i - 1);
    } else {
        lemma_trim_end_keeps(s, i);
    }
}

/// White space behind a text is trimmed away.
pub proof fn lemma_trim_padded(s: Seq<char>, c: char)
    requires
        white_space(c),
    ensures
        trim(s.push(c)) == trim(s),
    decreases s.len(),
{
    let padded = s.push(c);
    if s.len() == 0 {
        assert(padded.drop_first() =~= s);
    } else if white_space(s[0]) {
        assert(padded.drop_first() =~= s.drop_first().push(c));
        lemma_trim_padded(s.drop_first(), c);
    } else {
        assert(padded.drop_last() =~= s);
    }
}

/// The pieces of two texts with a separator between them are those of the one, then
/// those of the other.
pub proof fn lemma_split_joined(a: Seq<char>, b: Seq<char>, sep: char)
    ensures
        split(a.push(sep) + b, sep) == split(a, sep) + split(b, sep),
    decreases b.len(),
{
    let whole = a.push(sep) + b;
    if b.len() == 0 {
        assert(whole.drop_last() =~= a);
        assert(split(whole, sep) =~= split(a, sep) + split(b, sep));
    } else {
        lemma_split_joined(a, b.drop_last(), sep);
        lemma_split_not_empty(b.drop_last(), sep);
        assert(whole.drop_last() =~= a.push(sep) + b.drop_last());
        let before = split(b.drop_last(), sep);
        let all = split(a, sep) + before;
        assert(all.last() == before.last());
        assert(split(whole, sep) =~= split(a, sep) + split(b, sep));
    }
}

/// There is always a piece.
pub proof fn lemma_split_not_empty(s: Seq<char>, sep: char)
    ensures
        split(s, sep).len() > 0,
    decreases s.len(),
{
    if s.len() > 0 {
        lemma_split_not_empty(s.drop_last(), sep);
    }
}

/// A character in front of a text, other than the separator, stands in front of its
/// first piece.
pub proof fn lemma_split_prefixed(c: char, s: Seq<char>, sep: char)
    requires
        c != sep,
    ensures
        split(s, sep).len() > 0,
        split(seq![c] + s, sep) == split(s, sep).update(0, seq![c] + split(s, sep)[0]),
    decreases s.len(),
{
    let whole = seq![c] + s;
    let none = Seq::<char>::empty();
    lemma_split_not_empty(s, sep);
    if s.len() == 0 {
        assert(whole.drop_last() =~= none);
        assert(split(none, sep) =~= seq![none]);
        assert(none.push(c) =~= seq![c] + none);
        assert(split(whole, sep) =~= split(s, sep).update(0, seq![c] + split(s, sep)[0]));
    } else {
        let front = s.drop_last();
        lemma_split_prefixed(c, front, sep);
        assert(whole.drop_last() =~= seq![c] + front);
        let before = split(front, sep);
        if s.last() != sep && before.len() == 1 {
            assert((seq![c] + before[0]).push(s.last()) =~= seq![c] + before[0].push(s.last()));
        }
        assert(split(whole, sep) =~= split(s, sep).update(0, seq![c] + split(s, sep)[0]));
    }
}

/// What is taken off at the front is all white space, and the rest does not begin
/// with any.
pub proof fn law_only_white_space_leaves_the_front(s: Seq<char>)
    ensures
        ({
            let rest = trim_start(s);
            let n = s.len() - rest.len();
            &&& 0 <= n <= s.len()
            &&& s == s.take(n) + rest
            &&& forall|i: int| 0 <= i < n ==> white_space(#[trigger] s[i])
            &&& rest.len() > 0 ==> !white_space(rest[0])
        }),
    decreases s.len(),
{
    if s.len() > 0 && white_space(s[0]) {
        let tail = s.drop_first();
        law_only_white_space_leaves_the_front(tail);
        let n = s.len() - trim_start(s).len();
        assert(s =~= s.take(n) + trim_start(s)) by {
            assert(s =~= seq![s[0]] + tail);
            assert(s.take(n) =~= seq![s[0]] + tail.take(n - 1));
        }
        assert forall|i: int| 0 <= i < n implies white_space(#[trigger] s[i]) by {
            if i > 0 {
                assert(tail[i - 1] == s[i]);
            }
        }
    } else {
        assert(s.take(0) + s =~= s);
    }
}

/// What is taken off at the end is all white space, and the rest does not end with
/// any.
pub proof fn law_only_white_space_leaves_the_end(s: Seq<char>)
    ensures
        ({
            let rest = trim_end(s);
            &&& rest.len() <= s.len()
            &&& s == rest + s.skip(rest.len() as int)
            &&& forall|i: int| rest.len() <= i < s.len() ==> white_space(#[trigger] s[i])
            &&& rest.len() > 0 ==> !white_space(rest.last())
        }),
    decreases s.len(),
{
    lemma_trim_end_prefix(s);
    lemma_trim_end_back(s);
    let rest = trim_end(s);
    assert(s =~= rest + s.skip(rest.len() as int));
    if s.len() > 0 && white_space(s.last()) {
        let front = s.drop_last();
        law_only_white_space_leaves_the_end(front);
        assert forall|i: int| rest.len() <= i < s.len() implies white_space(#[trigger] s[i]) by {
            if i < front.len() {
                assert(front[i] == s[i]);
            }
        }
    }
}

/// Trimming keeps everything from the first character that is no white space to the
/// last such, and nothing where there is none.
pub proof fn law_trimming_keeps_the_middle(s: Seq<char>)
    ensures
        (forall|i: int| 0 <= i < s.len() ==> white_space(#[trigger] s[i])) ==> trim(s).len() == 0,
        forall|i: int, j: int|
            {
                &&& 0 <= i < j <= s.len()
                &&& !white_space(s[i])
                &&& !white_space(s[j - 1])
                &&& forall|k: int| 0 <= k < i || j <= k < s.len() ==> white_space(#[trigger] s[k])
            } ==> trim(s) == #[trigger] s.subrange(i, j),
{
    let front = trim_start(s);
    law_only_white_space_leaves_the_front(s);
    law_only_white_space_leaves_the_end(front);
    let n = s.len() - front.len();
    let m = trim(s).len();
    if forall|i: int| 0 <= i < s.len() ==> white_space(#[trigger] s[i]) {
        if m > 0 {
            assert(front[0] == s[n]);
        }
    }
    assert forall|i: int, j: int|
        {
            &&& 0 <= i < j <= s.len()
            &&& !white_space(s[i])
            &&& !white_space(s[j - 1])
            &&& forall|k: int| 0 <= k < i || j <= k < s.len() ==> white_space(#[trigger] s[k])
        } implies trim(s) == #[trigger] s.subrange(i, j) by {
        if n < i {
            assert(front[0] == s[n]);
        }
        assert(n == i);
        if i + m < j {
            assert(front[j - 1 - i] == s[j - 1]);
        }
        if i + m > j {
            assert(trim(s).last() == front[m - 1]);
            assert(front[m - 1] == s[i + m - 1]);
        }
        assert(trim(s) =~= s.subrange(i, j));
    }
}

/// What is found is there, nowhere earlier, and it is found where it is anywhere.
pub proof fn law_the_first_occurrence_is_found(s: Seq<char>, sub: Seq<char>)
    ensures
        match find(s, sub) {
            Some(i) => {
                &&& 0 <= i
                &&& i + sub.len() <= s.len()
                &&& s.subrange(i, i + sub.len()) == sub
                &&& forall|j: int| 0 <= j < i ==> #[trigger] s.subrange(j, j + sub.len()) != sub
            },
            None => forall|j: int|
                0 <= j && j + sub.len() <= s.len() ==> #[trigger] s.subrange(j, j + sub.len())
                    != sub,
        },
        contains(s, sub) == (find(s, sub) is Some),
{
    if contains(s, sub) {
        let k = choose|k: int| occurs_at(s, sub, k);
        let i = lemma_first_occurrence(s, sub, k);
        assert forall|j: int| 0 <= j < i implies #[trigger] s.subrange(j, j + sub.len()) != sub by {
            assert(!occurs_at(s, sub, j));
        }
    } else {
        assert forall|j: int| 0 <= j && j + sub.len() <= s.len() implies #[trigger] s.subrange(
            j,
            j + sub.len(),
        ) != sub by {
            assert(!occurs_at(s, sub, j));
        }
    }
}

/// White space ends a word: the words of two texts with white space between them are
/// those of the one, then those of the other. A text without white space is a word,
/// and white space has no words.
pub proof fn law_words_are_what_white_space_parts(a: Seq<char>, c: char, b: Seq<char>)
    requires
        white_space(c),
    ensures
        words(a.push(c) + b) == words(a) + words(b),
        a.len() > 0 && (forall|i: int| 0 <= i < a.len() ==> !white_space(#[trigger] a[i]))
            ==> words(a) == seq![a],
        (forall|i: int| 0 <= i < a.len() ==> white_space(#[trigger] a[i])) ==> words(a).len() == 0,
    decreases b.len(), a.len(),
{
    let whole = a.push(c) + b;
    if b.len() == 0 {
        assert(whole.drop_last() =~= a);
        assert(words(whole) =~= words(a) + words(b));
    } else {
        law_words_are_what_white_space_parts(a, c, b.drop_last());
        lemma_words_clean(b.drop_last());
        assert(whole.drop_last() =~= a.push(c) + b.drop_last());
        let before = words(b.drop_last());
        let all = words(a) + before;
        if b.len() == 1 {
            assert(whole[whole.len() - 2] == c);
        } else {
            assert(whole[whole.len() - 2] == b[b.len() - 2]);
            assert(b.drop_last().last() == b[b.len() - 2]);
            if before.len() > 0 {
                assert(all.last() == before.last());
            }
        }
        assert(words(whole) =~= words(a) + words(b));
    }
    if a.len() > 0 && forall|i: int| 0 <= i < a.len() ==> !white_space(#[trigger] a[i]) {
        lemma_words_append(Seq::empty(), a);
        assert(Seq::<char>::empty() + a =~= a);
        assert(words(Seq::<char>::empty()).push(a) =~= seq![a]);
    }
    if forall|i: int| 0 <= i < a.len() ==> white_space(#[trigger] a[i]) {
        lemma_no_words(a);
    }
}

proof fn lemma_no_words(s: Seq<char>)
    requires
        forall|i: int| 0 <= i < s.len() ==> white_space(#[trigger] s[i]),
    ensures
        words(s).len() == 0,
    decreases s.len(),
{
    if s.len() > 0 {
        assert forall|i: int| 0 <= i < s.len() - 1 implies white_space(
            #[trigger] s.drop_last()[i],
        ) by {
            assert(s.drop_last()[i] == s[i]);
        }
        lemma_no_words(s.drop_last());
    }
}

/// The pieces of a text, with the separator between neighbours, are the text again,
/// and no piece holds the separator.
pub proof fn law_pieces_joined_are_the_text(s: Seq<char>, sep: char)
    ensures
        join(split(s, sep), seq![sep]) == s,
        forall|i: int| 0 <= i < split(s, sep).len() ==> !(#[trigger] split(s, sep)[i]).contains(sep),
    decreases s.len(),
{
    let now = split(s, sep);
    if s.len() == 0 {
        assert(join(now, seq![sep]) =~= s);
    } else {
        let front = s.drop_last();
        let before = split(front, sep);
        law_pieces_joined_are_the_text(front, sep);
        lemma_split_not_empty(front, sep);
        assert(now.drop_last() == if s.last() == sep {
            before
        } else {
            before.drop_last()
        });
        assert(front.push(s.last()) =~= s);
        if s.last() == sep {
            assert(join(now, seq![sep]) =~= s);
        } else {
            if before.len() == 1 {
                assert(join(now, seq![sep]) =~= s);
            } else {
                assert(join(now, seq![sep]) =~= s);
            }
            assert forall|i: int| 0 <= i < now.len() implies !(#[trigger] now[i]).contains(
                sep,
            ) by {
                if i < before.len() - 1 {
                    assert(now[i] == before[i]);
                } else {
                    let piece = before[before.len() - 1];
                    assert(now[i] == piece.push(s.last()));
                    assert forall|k: int| 0 <= k < now[i].len() implies now[i][k] != sep by {
                        if k < piece.len() {
                            assert(piece[k] == now[i][k]);
                        }
                    }
                }
            }
        }
    }
}

/// Two texts are ordered by the first character in which they differ; one that the
/// other begins with comes first.
pub proof fn law_first_difference_decides(a: Seq<char>, b: Seq<char>)
    ensures
        lex_le(a, b) <==> exists|k: int|
            {
                &&& 0 <= k <= a.len()
                &&& k <= b.len()
                &&& #[trigger] a.take(k) == b.take(k)
                &&& k == a.len() || k < b.len() && (a[k] as int) < (b[k] as int)
            },
    decreases a.len(),
{
    if a.len() == 0 {
        assert(a.take(0) == b.take(0));
    } else if b.len() == 0 {
    } else if a[0] != b[0] {
        if (a[0] as int) < (b[0] as int) {
            assert(a.take(0) == b.take(0));
        }
        assert forall|k: int|
            0 <= k <= a.len() && k <= b.len() && #[trigger] a.take(k) == b.take(k) implies k
            == 0 by {
            if k > 0 {
                assert(a.take(k)[0] == a[0]);
                assert(b.take(k)[0] == b[0]);
            }
        }
    } else {
        let (x, y) = (a.drop_first(), b.drop_first());
        law_first_difference_decides(x, y);
        if lex_le(x, y) {
            let k = choose|k: int|
                {
                    &&& 0 <= k <= x.len()
                    &&& k <= y.len()
                    &&& #[trigger] x.take(k) == y.take(k)
                    &&& k == x.len() || k < y.len() && (x[k] as int) < (y[k] as int)
                };
            assert(a.take(k + 1) =~= seq![a[0]] + x.take(k));
            assert(b.take(k + 1) =~= seq![b[0]] + y.take(k));
        }
        if exists|k: int|
            {
                &&& 0 <= k <= a.len()
                &&& k <= b.len()
                &&& #[trigger] a.take(k) == b.take(k)
                &&& k == a.len() || k < b.len() && (a[k] as int) < (b[k] as int)
            } {
            let k = choose|k: int|
                {
                    &&& 0 <= k <= a.len()
                    &&& k <= b.len()
                    &&& #[trigger] a.take(k) == b.take(k)
                    &&& k == a.len() || k < b.len() && (a[k] as int) < (b[k] as int)
                };
            assert(x.take(k - 1) =~= a.take(k).drop_first());
            assert(y.take(k - 1) =~= b.take(k).drop_first());
        }
    }
}

/// A number's decimal notation is made of digits, does not begin with a zero unless
/// it is that of zero, and grows at its end by the digit that is put behind it.
pub proof fn law_decimal_notation(n: nat, d: nat)
    requires
        d < 10,
    ensures
        forall|i: int| 0 <= i < decimal(n).len() ==> '0' <= #[trigger] decimal(n)[i] <= '9',
        decimal(n).len() > 0,
        n > 0 ==> decimal(n)[0] != '0',
        n > 0 ==> decimal(10 * n + d) == decimal(n) + decimal(d),
        decimal(d).len() == 1 && decimal(d)[0] as int == '0' as int + d,
    decreases n,
{
    if n >= 10 {
        law_decimal_notation(n / 10, d);
    }
    if n > 0 {
        assert((10 * n + d) / 10 == n);
        assert((10 * n + d) % 10 == d);
        assert(decimal(10 * n + d) =~= decimal(n) + decimal(d));
    }
}

} // verus!
