//! Text as sequences of characters: trimming, searching, replacing, decimal numbers.
use vstd::prelude::*;
use vstd::string::*;

verus! {

/// `String::push` of the standard library: the character is appended to the text.
pub assume_specification[ String::push ](s: &mut String, c: char)
    ensures
        final(s)@ == old(s)@.push(c),
;

/// The characters of an optional text.
pub open spec fn optional(t: Option<String>) -> Option<Seq<char>> {
    match t {
        Some(t) => Some(t@),
        None => None,
    }
}

/// The characters of `s`, in order.
pub fn chars_of(s: &str) -> (r: Vec<char>)
    ensures
        r@ == s@,
{
    let mut out: Vec<char> = Vec::new();
    for c in it: s.chars()
        invariant
            out@ == it.seq().take(it.index() as int),
            it.seq() == s@,
    {
        out.push(c);
    }
    out
}

/// The text made of `chars`, in order.
pub fn string_of(chars: &[char]) -> (r: String)
    ensures
        r@ == chars@,
{
    let mut out = String::new();
    let mut i: usize = 0;
    while i < chars.len()
        invariant
            i <= chars@.len(),
            out@ == chars@.take(i as int),
        decreases chars@.len() - i,
    {
        out.push(chars[i]);
        i = i + 1;
    }
    assert(chars@.take(i as int) =~= chars@);
    out
}

/// Whether two texts hold the same characters.
pub fn same(a: &str, b: &str) -> (r: bool)
    ensures
        r == (a@ == b@),
{
    a.to_owned() == b.to_owned()
}

/// Two texts, one behind the other.
pub fn cat2(a: &str, b: &str) -> (r: String)
    ensures
        r@ == a@ + b@,
{
    let mut out = a.to_owned();
    out.append(b);
    out
}

/// Three texts, one behind the other.
pub fn cat3(a: &str, b: &str, c: &str) -> (r: String)
    ensures
        r@ == a@ + b@ + c@,
{
    let mut out = cat2(a, b);
    out.append(c);
    out
}

/// Four texts, one behind the other.
pub fn cat4(a: &str, b: &str, c: &str, d: &str) -> (r: String)
    ensures
        r@ == a@ + b@ + c@ + d@,
{
    let mut out = cat3(a, b, c);
    out.append(d);
    out
}

// ---------------------------------------------------------------------------
// White space
// ---------------------------------------------------------------------------

/// Whether `c` has the Unicode property `White_Space`.
pub open spec fn is_white(c: char) -> bool {
    let n = c as u32;
    ||| 0x9 <= n <= 0xD
    ||| n == 0x20
    ||| n == 0x85
    ||| n == 0xA0
    ||| n == 0x1680
    ||| 0x2000 <= n <= 0x200A
    ||| n == 0x2028
    ||| n == 0x2029
    ||| n == 0x202F
    ||| n == 0x205F
    ||| n == 0x3000
}

fn white(c: char) -> (r: bool)
    ensures
        r == is_white(c),
{
    let n: u32 = c as u32;
    (0x9 <= n && n <= 0xD) || n == 0x20 || n == 0x85 || n == 0xA0 || n == 0x1680 || (0x2000 <= n
        && n <= 0x200A) || n == 0x2028 || n == 0x2029 || n == 0x202F || n == 0x205F || n == 0x3000
}

/// `s` without its leading white space.
pub open spec fn trim_start(s: Seq<char>) -> Seq<char>
    decreases s.len(),
{
    if s.len() > 0 && is_white(s[0]) {
        trim_start(s.drop_first())
    } else {
        s
    }
}

/// White space is taken away, nothing else.
pub proof fn lemma_trim_start(s: Seq<char>)
    ensures
        trim_start(s).len() <= s.len(),
    decreases s.len(),
{
    if s.len() > 0 && is_white(s[0]) {
        lemma_trim_start(s.drop_first());
    }
}

/// `s` without its trailing white space.
pub open spec fn trim_end(s: Seq<char>) -> Seq<char>
    decreases s.len(),
{
    if s.len() > 0 && is_white(s.last()) {
        trim_end(s.drop_last())
    } else {
        s
    }
}

/// `s` without the white space at either end.
pub open spec fn trimmed(s: Seq<char>) -> Seq<char> {
    trim_end(trim_start(s))
}

/// Whether `s` holds nothing but white space.
pub open spec fn is_blank(s: Seq<char>) -> bool {
    trimmed(s).len() == 0
}

/// Whether `s` holds nothing but white space.
pub fn blank(s: &str) -> (r: bool)
    ensures
        r == is_blank(s@),
{
    trim(&chars_of(s)).len() == 0
}

/// A text that begins with something is not blank.
pub proof fn lemma_not_blank(s: Seq<char>)
    requires
        s.len() > 0,
        !is_white(s[0]),
    ensures
        !is_blank(s),
    decreases s.len(),
{
    if s.len() > 1 && is_white(s.last()) {
        assert(s.drop_last()[0] == s[0]);
        lemma_not_blank(s.drop_last());
    }
}

/// The characters of `s` from `from` up to `to`.
pub fn cut(s: &Vec<char>, from: usize, to: usize) -> (r: Vec<char>)
    requires
        from <= to <= s@.len(),
    ensures
        r@ == s@.subrange(from as int, to as int),
{
    let mut out: Vec<char> = Vec::new();
    let mut i: usize = from;
    while i < to
        invariant
            from <= i <= to <= s@.len(),
            out@ == s@.subrange(from as int, i as int),
        decreases to - i,
    {
        out.push(s[i]);
        i = i + 1;
    }
    out
}

/// The first position, from `from` on, that holds no white space.
pub fn skip_white(s: &Vec<char>, from: usize) -> (r: usize)
    requires
        from <= s@.len(),
    ensures
        from <= r <= s@.len(),
        s@.skip(r as int) == trim_start(s@.skip(from as int)),
{
    let mut a: usize = from;
    while a < s.len() && white(s[a])
        invariant
            from <= a <= s@.len(),
            trim_start(s@.skip(a as int)) == trim_start(s@.skip(from as int)),
        decreases s@.len() - a,
    {
        assert(s@.skip(a as int).drop_first() =~= s@.skip(a + 1));
        a = a + 1;
    }
    a
}

/// `s` without the white space at either end.
pub fn trim(s: &Vec<char>) -> (r: Vec<char>)
    ensures
        r@ == trimmed(s@),
{
    let n: usize = s.len();
    assert(s@.skip(0) =~= s@);
    let a = skip_white(s, 0);
    let mut b: usize = n;
    assert(s@.subrange(a as int, n as int) =~= s@.skip(a as int));
    while a < b && white(s[b - 1])
        invariant
            a <= b <= n == s@.len(),
            trim_end(s@.subrange(a as int, b as int)) == trimmed(s@),
        decreases b,
    {
        assert(s@.subrange(a as int, b as int).drop_last() =~= s@.subrange(a as int, b - 1));
        b = b - 1;
    }
    assert(trim_end(s@.subrange(a as int, b as int)) == s@.subrange(a as int, b as int));
    cut(s, a, b)
}

// ---------------------------------------------------------------------------
// Prefixes, suffixes, searching, replacing
// ---------------------------------------------------------------------------

/// Whether `s` begins with `p`.
pub open spec fn has_prefix(s: Seq<char>, p: Seq<char>) -> bool {
    p.len() <= s.len() && s.take(p.len() as int) == p
}

/// Whether `s` ends with `p`.
pub open spec fn has_suffix(s: Seq<char>, p: Seq<char>) -> bool {
    p.len() <= s.len() && s.skip(s.len() - p.len()) == p
}

/// Whether `p` stands in `s` at position `i`.
pub open spec fn occurs_at(s: Seq<char>, p: Seq<char>, i: int) -> bool {
    0 <= i && i + p.len() <= s.len() && s.subrange(i, i + p.len()) == p
}

/// The first position, from `i` on, at which `p` stands in `s`.
pub open spec fn find_from(s: Seq<char>, p: Seq<char>, i: int) -> Option<int>
    decreases s.len() - i + 1,
{
    if i < 0 || i + p.len() > s.len() {
        None
    } else if occurs_at(s, p, i) {
        Some(i)
    } else {
        find_from(s, p, i + 1)
    }
}

/// Whether `p` stands anywhere in `s`.
pub open spec fn has(s: Seq<char>, p: Seq<char>) -> bool {
    find_from(s, p, 0) is Some
}

/// What `find_from` gives back is the first occurrence.
pub proof fn lemma_find_from(s: Seq<char>, p: Seq<char>, i: int)
    requires
        0 <= i,
    ensures
        find_from(s, p, i) matches Some(k) ==> i <= k && occurs_at(s, p, k) && (forall|j: int|
            i <= j < k ==> !occurs_at(s, p, j)),
        find_from(s, p, i) is None ==> (forall|j: int| i <= j ==> !occurs_at(s, p, j)),
    decreases s.len() - i + 1,
{
    if i + p.len() <= s.len() && !occurs_at(s, p, i) {
        lemma_find_from(s, p, i + 1);
    }
}

fn matches_at(s: &Vec<char>, p: &Vec<char>, i: usize) -> (r: bool)
    requires
        i + p@.len() <= s@.len(),
    ensures
        r == occurs_at(s@, p@, i as int),
{
    let n: usize = s.len();
    let mut k: usize = 0;
    while k < p.len()
        invariant
            k <= p@.len(),
            n == s@.len(),
            i + p@.len() <= s@.len(),
            forall|j: int| 0 <= j < k ==> s@[i + j] == p@[j],
        decreases p@.len() - k,
    {
        if s[i + k] != p[k] {
            assert(s@.subrange(i as int, i + p@.len())[k as int] != p@[k as int]);
            return false;
        }
        k = k + 1;
    }
    assert(s@.subrange(i as int, i + p@.len()) =~= p@);
    true
}

/// Whether `p` stands in `s` at position `i`.
pub fn stands_at(s: &Vec<char>, p: &Vec<char>, i: usize) -> (r: bool)
    requires
        i <= s@.len(),
    ensures
        r == occurs_at(s@, p@, i as int),
{
    p.len() <= s.len() - i && matches_at(s, p, i)
}

/// The first position, from `start` on, at which `p` stands in `s`.
pub fn find(s: &Vec<char>, p: &Vec<char>, start: usize) -> (r: Option<usize>)
    ensures
        r is Some <==> find_from(s@, p@, start as int) is Some,
        r matches Some(k) ==> find_from(s@, p@, start as int) == Some(k as int) && start <= k && k
            + p@.len() <= s@.len(),
{
    proof {
        lemma_find_from(s@, p@, start as int);
    }
    if p.len() > s.len() {
        return None;
    }
    let last: usize = s.len() - p.len();
    let mut i: usize = start;
    while i <= last
        invariant
            start <= i,
            last + p@.len() == s@.len(),
            find_from(s@, p@, i as int) == find_from(s@, p@, start as int),
        decreases last + 1 - i,
    {
        if matches_at(s, p, i) {
            return Some(i);
        }
        if i == last {
            assert(find_from(s@, p@, i + 1) is None);
            return None;
        }
        i = i + 1;
    }
    None
}

/// Whether `s` begins with `p`.
pub fn starts_with(s: &Vec<char>, p: &Vec<char>) -> (r: bool)
    ensures
        r == has_prefix(s@, p@),
{
    if p.len() > s.len() {
        return false;
    }
    assert(s@.subrange(0, p@.len() as int) =~= s@.take(p@.len() as int));
    matches_at(s, p, 0)
}

/// Whether `s` ends with `p`.
pub fn ends_with(s: &Vec<char>, p: &Vec<char>) -> (r: bool)
    ensures
        r == has_suffix(s@, p@),
{
    if p.len() > s.len() {
        return false;
    }
    assert(s@.subrange(s@.len() - p@.len(), s@.len() as int) =~= s@.skip(s@.len() - p@.len()));
    matches_at(s, p, s.len() - p.len())
}

/// `s` with every occurrence of `p`, taken from the left, replaced by `w`.
pub open spec fn replaced(s: Seq<char>, p: Seq<char>, w: Seq<char>) -> Seq<char>
    decreases s.len(),
{
    match find_from(s, p, 0) {
        Some(i) => if p.len() > 0 && 0 <= i && i + p.len() <= s.len() {
            s.take(i) + w + replaced(s.skip(i + p.len()), p, w)
        } else {
            s
        },
        None => s,
    }
}

/// Searching from `k` on is searching the rest of the text.
pub proof fn lemma_find_shift(s: Seq<char>, p: Seq<char>, k: int, i: int)
    requires
        0 <= k <= s.len(),
        k <= i,
    ensures
        find_from(s, p, i) == (match find_from(s.skip(k), p, i - k) {
            Some(j) => Some(j + k),
            None => None,
        }),
    decreases s.len() - i + 1,
{
    if i + p.len() <= s.len() {
        assert(s.skip(k).subrange(i - k, i - k + p.len()) =~= s.subrange(i, i + p.len()));
        if !occurs_at(s, p, i) {
            lemma_find_shift(s, p, k, i + 1);
        }
    }
}

/// `s` with every occurrence of `p`, taken from the left, replaced by `w`.
pub fn replace(s: &Vec<char>, p: &Vec<char>, w: &Vec<char>) -> (r: Vec<char>)
    requires
        p@.len() > 0,
    ensures
        r@ == replaced(s@, p@, w@),
{
    let mut out: Vec<char> = Vec::new();
    let mut from: usize = 0;
    assert(s@.skip(0) =~= s@);
    while from < s.len()
        invariant
            from <= s@.len(),
            p@.len() > 0,
            replaced(s@, p@, w@) == out@ + replaced(s@.skip(from as int), p@, w@),
        decreases s@.len() - from,
    {
        proof {
            lemma_find_shift(s@, p@, from as int, from as int);
            lemma_find_from(s@.skip(from as int), p@, 0);
        }
        match find(s, p, from) {
            Some(i) => {
                let ghost rest = s@.skip(from as int);
                let ghost before = out@;
                extend(&mut out, &cut(s, from, i));
                extend(&mut out, w);
                proof {
                    assert(rest.take(i - from) =~= s@.subrange(from as int, i as int));
                    assert(rest.skip(i - from + p@.len()) =~= s@.skip(i + p@.len()));
                    assert(before + (rest.take(i - from) + w@ + replaced(
                        s@.skip(i + p@.len()),
                        p@,
                        w@,
                    )) =~= out@ + replaced(s@.skip(i + p@.len()), p@, w@));
                }
                from = i + p.len();
            },
            None => {
                let ghost before = out@;
                extend(&mut out, &cut(s, from, s.len()));
                assert(s@.subrange(from as int, s@.len() as int) =~= s@.skip(from as int));
                from = s.len();
                assert(s@.skip(from as int) =~= Seq::<char>::empty());
                assert(find_from(Seq::<char>::empty(), p@, 0) is None);
                assert(before + s@.skip(from as int) + Seq::<char>::empty() =~= before + s@.skip(
                    from as int,
                ));
            },
        }
    }
    assert(s@.skip(from as int) =~= Seq::<char>::empty());
    assert(find_from(Seq::<char>::empty(), p@, 0) is None);
    out
}

/// Appends `more` to `out`.
pub fn extend(out: &mut Vec<char>, more: &Vec<char>)
    ensures
        final(out)@ == old(out)@ + more@,
{
    let ghost before = out@;
    let mut i: usize = 0;
    while i < more.len()
        invariant
            i <= more@.len(),
            out@ == before + more@.take(i as int),
        decreases more@.len() - i,
    {
        out.push(more[i]);
        i = i + 1;
    }
    assert(more@.take(i as int) =~= more@);
}

// ---------------------------------------------------------------------------
// Lines and pieces
// ---------------------------------------------------------------------------

/// The texts that a vector of vectors holds.
pub open spec fn texts(v: Seq<Vec<char>>) -> Seq<Seq<char>> {
    v.map_values(|t: Vec<char>| t@)
}

/// The first position, from `i` on, that holds `c`; the length of `s` where none does.
pub open spec fn next_char(s: Seq<char>, c: char, i: int) -> int
    decreases s.len() - i,
{
    if i < 0 || i >= s.len() {
        s.len() as int
    } else if s[i] == c {
        i
    } else {
        next_char(s, c, i + 1)
    }
}

/// Looking from `k` on is looking in the rest of the text.
pub proof fn lemma_next_char_shift(s: Seq<char>, c: char, k: int, i: int)
    requires
        0 <= k <= i <= s.len(),
    ensures
        next_char(s, c, i) == next_char(s.skip(k), c, i - k) + k,
    decreases s.len() - i,
{
    if i < s.len() && s[i] != c {
        lemma_next_char_shift(s, c, k, i + 1);
    }
}

/// No position that holds `c` is passed over.
proof fn lemma_next_char(s: Seq<char>, c: char, i: int, k: int)
    requires
        0 <= i <= k <= s.len(),
        k < s.len() ==> s[k] == c,
    ensures
        i <= next_char(s, c, i) <= k,
        next_char(s, c, i) < s.len() ==> s[next_char(s, c, i)] == c,
    decreases k - i,
{
    if i < k && s[i] != c {
        lemma_next_char(s, c, i + 1, k);
    }
}

/// The first position, from `from` on, that holds `c`; the length of `s` where none does.
pub fn seek(s: &Vec<char>, c: char, from: usize) -> (r: usize)
    requires
        from <= s@.len(),
    ensures
        r == next_char(s@, c, from as int),
        from <= r <= s@.len(),
{
    let mut i: usize = from;
    while i < s.len() && s[i] != c
        invariant
            from <= i <= s@.len(),
            next_char(s@, c, from as int) == next_char(s@, c, i as int),
        decreases s@.len() - i,
    {
        i = i + 1;
    }
    i
}

/// The pieces of `s` between the occurrences of `c`, the empty ones among them.
pub open spec fn split_on(s: Seq<char>, c: char) -> Seq<Seq<char>>
    decreases s.len(),
{
    let i = next_char(s, c, 0);
    if 0 <= i < s.len() {
        seq![s.take(i)] + split_on(s.skip(i + 1), c)
    } else {
        seq![s]
    }
}

/// What stands behind the last `c` is the last piece.
pub proof fn lemma_last_piece(a: Seq<char>, x: Seq<char>, c: char)
    requires
        forall|i: int| 0 <= i < x.len() ==> x[i] != c,
    ensures
        split_on(a.push(c) + x, c).len() > 0,
        split_on(a.push(c) + x, c).last() == x,
    decreases a.len(),
{
    let s = a.push(c) + x;
    let n = a.len() as int;
    assert(s[n] == c);
    lemma_next_char(s, c, 0, n);
    let i = next_char(s, c, 0);
    let rest = split_on(s.skip(i + 1), c);
    if i == n {
        assert(s.skip(i + 1) =~= x);
        lemma_next_char(x, c, 0, x.len() as int);
        assert(rest =~= seq![x]);
    } else {
        assert(a[i] == c);
        assert(s.skip(i + 1) =~= a.skip(i + 1).push(c) + x);
        lemma_last_piece(a.skip(i + 1), x, c);
    }
    assert((seq![s.take(i)] + rest).last() == rest.last());
}

/// A line ends in a line feed; a carriage return before it belongs to the line's end.
pub open spec fn without_return(s: Seq<char>) -> Seq<char> {
    if s.len() > 0 && s.last() == '\r' {
        s.drop_last()
    } else {
        s
    }
}

/// The lines of `s`, without their ends. A last line without an end counts where it is not empty.
pub open spec fn lines_of(s: Seq<char>) -> Seq<Seq<char>>
    decreases s.len(),
{
    let i = next_char(s, '\n', 0);
    if s.len() == 0 {
        Seq::empty()
    } else if 0 <= i < s.len() {
        seq![without_return(s.take(i))] + lines_of(s.skip(i + 1))
    } else {
        seq![s]
    }
}

/// The pieces of `s` between the occurrences of `c`, the empty ones among them.
pub fn split(s: &Vec<char>, c: char) -> (r: Vec<Vec<char>>)
    ensures
        texts(r@) == split_on(s@, c),
{
    let mut out: Vec<Vec<char>> = Vec::new();
    let mut from: usize = 0;
    assert(s@.skip(0) =~= s@);
    assert(texts(out@) =~= Seq::<Seq<char>>::empty());
    loop
        invariant
            from <= s@.len(),
            split_on(s@, c) =~= texts(out@) + split_on(s@.skip(from as int), c),
        decreases s@.len() - from,
    {
        proof {
            lemma_next_char_shift(s@, c, from as int, from as int);
        }
        let ghost rest = s@.skip(from as int);
        let ghost before = texts(out@);
        let i = seek(s, c, from);
        let piece = cut(s, from, i);
        out.push(piece);
        assert(texts(out@) =~= before.push(piece@));
        assert(piece@ =~= rest.take(i - from));
        if i == s.len() {
            assert(rest.take(i - from) =~= rest);
            assert(split_on(rest, c) =~= seq![rest]);
            return out;
        }
        assert(rest.skip(i - from + 1) =~= s@.skip(i + 1));
        from = i + 1;
    }
}

/// The lines of `s`, without their ends.
pub fn lines(s: &Vec<char>) -> (r: Vec<Vec<char>>)
    ensures
        texts(r@) == lines_of(s@),
{
    let mut out: Vec<Vec<char>> = Vec::new();
    let mut from: usize = 0;
    assert(s@.skip(0) =~= s@);
    assert(texts(out@) =~= Seq::<Seq<char>>::empty());
    while from < s.len()
        invariant
            from <= s@.len(),
            lines_of(s@) =~= texts(out@) + lines_of(s@.skip(from as int)),
        decreases s@.len() - from,
    {
        proof {
            lemma_next_char_shift(s@, '\n', from as int, from as int);
        }
        let ghost rest = s@.skip(from as int);
        let ghost before = texts(out@);
        let i = seek(s, '\n', from);
        if i == s.len() {
            let piece = cut(s, from, i);
            out.push(piece);
            assert(texts(out@) =~= before.push(piece@));
            assert(piece@ =~= rest);
            assert(lines_of(rest) =~= seq![rest]);
            return out;
        }
        let end: usize = if i > from && s[i - 1] == '\r' {
            i - 1
        } else {
            i
        };
        let piece = cut(s, from, end);
        out.push(piece);
        assert(texts(out@) =~= before.push(piece@));
        assert(piece@ =~= without_return(rest.take(i - from)));
        assert(rest.skip(i - from + 1) =~= s@.skip(i + 1));
        from = i + 1;
    }
    assert(s@.skip(from as int) =~= Seq::<char>::empty());
    out
}

/// The part of `s` behind its last `c`; all of `s` where there is none.
pub open spec fn after_last(s: Seq<char>, c: char) -> Seq<char>
    decreases s.len(),
{
    if s.len() == 0 || s.last() == c {
        Seq::empty()
    } else {
        after_last(s.drop_last(), c).push(s.last())
    }
}

/// The part of `s` behind its last `c`.
pub fn tail_after(s: &Vec<char>, c: char) -> (r: Vec<char>)
    ensures
        r@ == after_last(s@, c),
{
    let n: usize = s.len();
    let mut i: usize = n;
    assert(s@.take(n as int) =~= s@);
    assert(s@.skip(n as int) =~= Seq::<char>::empty());
    assert(after_last(s@, c) =~= after_last(s@.take(i as int), c) + s@.skip(i as int));
    while i > 0 && s[i - 1] != c
        invariant
            i <= n == s@.len(),
            after_last(s@, c) == after_last(s@.take(i as int), c) + s@.skip(i as int),
        decreases i,
    {
        assert(s@.take(i as int).drop_last() =~= s@.take(i - 1));
        assert(after_last(s@.take(i - 1), c).push(s@[i - 1]) + s@.skip(i as int) =~= after_last(
            s@.take(i - 1),
            c,
        ) + s@.skip(i - 1));
        i = i - 1;
    }
    assert(after_last(s@.take(i as int), c) =~= Seq::<char>::empty());
    assert(s@.subrange(i as int, n as int) =~= s@.skip(i as int));
    cut(s, i, n)
}

// ---------------------------------------------------------------------------
// Numbers
// ---------------------------------------------------------------------------

/// The digit that stands for `d`, for `d` below ten.
pub open spec fn digit(d: nat) -> char {
    ((48 + d) as u8) as char
}

/// The decimal digits of `n`.
pub open spec fn dec(n: nat) -> Seq<char>
    decreases n,
{
    if n < 10 {
        seq![digit(n)]
    } else {
        dec(n / 10).push(digit(n % 10))
    }
}

/// The decimal text of `i`, with a sign where it is negative.
pub open spec fn dec_int(i: int) -> Seq<char> {
    if i < 0 {
        seq!['-'] + dec((-i) as nat)
    } else {
        dec(i as nat)
    }
}

/// `n` copies of the digit zero.
pub open spec fn zeros(n: int) -> Seq<char> {
    Seq::new(if n > 0 { n as nat } else { 0 }, |i: int| '0')
}

/// The decimal text of `i`, filled up with zeros behind the sign to at least `width` characters.
pub open spec fn dec_padded(i: int, width: int) -> Seq<char> {
    if i < 0 {
        seq!['-'] + zeros(width - 1 - dec((-i) as nat).len()) + dec((-i) as nat)
    } else {
        zeros(width - dec(i as nat).len()) + dec(i as nat)
    }
}

fn digit_char(d: u64) -> (r: char)
    requires
        d < 10,
    ensures
        r == digit(d as nat),
{
    let b: u8 = 48u8 + d as u8;
    b as char
}

/// The decimal digits of `n`.
pub fn digits(n: u64) -> (r: Vec<char>)
    ensures
        r@ == dec(n as nat),
    decreases n,
{
    if n < 10 {
        let mut out: Vec<char> = Vec::new();
        out.push(digit_char(n));
        assert(out@ =~= dec(n as nat));
        out
    } else {
        let mut out = digits(n / 10);
        out.push(digit_char(n % 10));
        out
    }
}

fn magnitude(i: i64) -> (r: u64)
    ensures
        r == (if i < 0 {
            -i
        } else {
            i as int
        }),
{
    if i < 0 {
        (-(i as i128)) as u64
    } else {
        i as u64
    }
}

/// The decimal text of `i`.
pub fn number(i: i64) -> (r: Vec<char>)
    ensures
        r@ == dec_int(i as int),
{
    let m = digits(magnitude(i));
    if i < 0 {
        let mut out: Vec<char> = Vec::new();
        out.push('-');
        extend(&mut out, &m);
        assert(out@ =~= seq!['-'] + m@);
        out
    } else {
        m
    }
}

/// The decimal text of `i`, filled up with zeros to at least `width` characters.
pub fn padded(i: i64, width: usize) -> (r: Vec<char>)
    requires
        1 <= width,
    ensures
        r@ == dec_padded(i as int, width as int),
{
    let m = digits(magnitude(i));
    let mut out: Vec<char> = Vec::new();
    let mut room: usize = width;
    if i < 0 {
        out.push('-');
        room = width - 1;
    }
    let ghost head = out@;
    let fill: usize = if room > m.len() {
        room - m.len()
    } else {
        0
    };
    let mut k: usize = 0;
    while k < fill
        invariant
            k <= fill,
            out@ == head + zeros(k as int),
        decreases fill - k,
    {
        out.push('0');
        assert(head + zeros(k as int).push('0') =~= head + zeros(k + 1));
        k = k + 1;
    }
    extend(&mut out, &m);
    assert(out@ =~= dec_padded(i as int, width as int));
    out
}

/// Whether every character of `s` is a decimal digit.
pub open spec fn all_digits(s: Seq<char>) -> bool {
    forall|i: int| 0 <= i < s.len() ==> '0' <= #[trigger] s[i] <= '9'
}

/// What a sequence of digits stands for.
pub open spec fn value_of(s: Seq<char>) -> nat
    decreases s.len(),
{
    if s.len() == 0 {
        0
    } else {
        value_of(s.drop_last()) * 10 + (s.last() as nat - 48) as nat
    }
}

/// What `s` stands for as an unsigned number: digits, at least one, behind an optional plus sign.
pub open spec fn unsigned(s: Seq<char>) -> Option<nat> {
    let t = if s.len() > 0 && s[0] == '+' {
        s.drop_first()
    } else {
        s
    };
    if t.len() > 0 && all_digits(t) {
        Some(value_of(t))
    } else {
        None
    }
}

/// `unsigned`, where the number is at most `max`.
pub open spec fn unsigned_up_to(s: Seq<char>, max: int) -> Option<nat> {
    match unsigned(s) {
        Some(n) => if n <= max {
            Some(n)
        } else {
            None
        },
        None => None,
    }
}

/// The number that `s` stands for, where it is one and at most `max`.
pub fn parse_unsigned(s: &Vec<char>, max: u64) -> (r: Option<u64>)
    ensures
        r is Some <==> unsigned_up_to(s@, max as int) is Some,
        r matches Some(n) ==> unsigned_up_to(s@, max as int) == Some(n as nat),
{
    let n: usize = s.len();
    let start: usize = if n > 0 && s[0] == '+' {
        1
    } else {
        0
    };
    let ghost t = s@.skip(start as int);
    proof {
        assert(s@.drop_first() =~= s@.skip(1));
        assert(s@.skip(0) =~= s@);
    }
    if start == n {
        return None;
    }
    let mut acc: u64 = 0;
    let mut i: usize = start;
    let mut over: bool = false;
    assert(t.take(0) =~= Seq::<char>::empty());
    while i < n
        invariant
            start <= i <= n == s@.len(),
            start < n,
            t == s@.skip(start as int),
            t == (if s@.len() > 0 && s@[0] == '+' {
                s@.drop_first()
            } else {
                s@
            }),
            all_digits(t.take(i - start)),
            over ==> value_of(t.take(i - start)) > max,
            !over ==> acc == value_of(t.take(i - start)) && acc <= max,
        decreases n - i,
    {
        let c: char = s[i];
        assert(t[i - start] == c);
        if c < '0' || c > '9' {
            return None;
        }
        let d: u64 = (c as u32 - 48) as u64;
        proof {
            assert(t.take(i - start + 1).drop_last() =~= t.take(i - start));
            assert(t.take(i - start + 1).last() == c);
        }
        if !over {
            let wide: u128 = acc as u128 * 10 + d as u128;
            if wide > max as u128 {
                over = true;
            } else {
                acc = wide as u64;
            }
        }
        i = i + 1;
    }
    assert(t.take(n - start) =~= t);
    if over {
        None
    } else {
        Some(acc)
    }
}

/// The decimal digits of a number are digits, and stand for it.
pub proof fn lemma_dec_reads_back(n: nat)
    ensures
        dec(n).len() > 0,
        all_digits(dec(n)),
        value_of(dec(n)) == n,
        unsigned(dec(n)) == Some(n),
    decreases n,
{
    if n >= 10 {
        lemma_dec_reads_back(n / 10);
        assert(dec(n).drop_last() =~= dec(n / 10));
        assert(dec(n).last() == digit(n % 10));
        assert(digit(n % 10) as nat == 48 + n % 10);
        assert(value_of(dec(n)) == value_of(dec(n / 10)) * 10 + n % 10);
    } else {
        assert(dec(n) =~= seq![digit(n)]);
        assert(dec(n).drop_last() =~= Seq::<char>::empty());
        assert(value_of(Seq::<char>::empty()) == 0);
        assert(digit(n) as nat == 48 + n);
        assert(value_of(dec(n)) == value_of(dec(n).drop_last()) * 10 + (dec(n).last() as nat - 48)
            as nat);
    }
    assert('0' <= dec(n)[0] <= '9');
    assert(dec(n)[0] != '+');
}

// ---------------------------------------------------------------------------
// Order
// ---------------------------------------------------------------------------

/// Whether `a` comes before `b`: by the first character in which they differ, a text before its
/// own continuations.
pub open spec fn precedes(a: Seq<char>, b: Seq<char>) -> bool
    decreases a.len(),
{
    if b.len() == 0 {
        false
    } else if a.len() == 0 {
        true
    } else if a[0] != b[0] {
        a[0] < b[0]
    } else {
        precedes(a.drop_first(), b.drop_first())
    }
}

/// The order of texts is strict, total and transitive.
pub proof fn lemma_order_total(a: Seq<char>, b: Seq<char>)
    ensures
        !precedes(a, a),
        precedes(a, b) ==> !precedes(b, a),
        !precedes(a, b) && !precedes(b, a) ==> a == b,
    decreases a.len(),
{
    if a.len() > 0 {
        lemma_order_total(a.drop_first(), a.drop_first());
    }
    if a.len() > 0 && b.len() > 0 && a[0] == b[0] {
        lemma_order_total(a.drop_first(), b.drop_first());
        if !precedes(a, b) && !precedes(b, a) {
            assert(a =~= seq![a[0]] + a.drop_first());
            assert(b =~= seq![b[0]] + b.drop_first());
        }
    }
    if a.len() == 0 && b.len() == 0 {
        assert(a =~= b);
    }
}

pub proof fn lemma_order_transitive(a: Seq<char>, b: Seq<char>, c: Seq<char>)
    requires
        precedes(a, b),
        precedes(b, c),
    ensures
        precedes(a, c),
    decreases a.len(),
{
    if a.len() > 0 && a[0] == b[0] && b[0] == c[0] {
        lemma_order_transitive(a.drop_first(), b.drop_first(), c.drop_first());
    }
}

/// Whether `a` comes before `b`.
pub fn comes_before(a: &str, b: &str) -> (r: bool)
    ensures
        r == precedes(a@, b@),
{
    let x = chars_of(a);
    let y = chars_of(b);
    let mut i: usize = 0;
    assert(a@.skip(0) =~= a@);
    assert(b@.skip(0) =~= b@);
    while i < x.len() && i < y.len()
        invariant
            i <= x@.len(),
            i <= y@.len(),
            x@ == a@,
            y@ == b@,
            precedes(a@, b@) == precedes(a@.skip(i as int), b@.skip(i as int)),
        decreases x@.len() - i,
    {
        assert(a@.skip(i as int)[0] == x[i as int]);
        assert(b@.skip(i as int)[0] == y[i as int]);
        if x[i] != y[i] {
            return x[i] < y[i];
        }
        assert(a@.skip(i as int).drop_first() =~= a@.skip(i + 1));
        assert(b@.skip(i as int).drop_first() =~= b@.skip(i + 1));
        i = i + 1;
    }
    i < y.len()
}

// ---------------------------------------------------------------------------
// Laws
// ---------------------------------------------------------------------------

/// Blanks, tabs and the ends of lines are white space; what is visible in ASCII is not.
pub proof fn law_white_space(c: char)
    ensures
        c == ' ' || c == '\t' || c == '\n' || c == '\r' ==> is_white(c),
        '!' <= c <= '~' ==> !is_white(c),
{
}

proof fn lemma_trim_start_skips(a: Seq<char>, x: Seq<char>)
    requires
        forall|i: int| 0 <= i < a.len() ==> is_white(#[trigger] a[i]),
        x.len() > 0 ==> !is_white(x[0]),
    ensures
        trim_start(a + x) == x,
    decreases a.len(),
{
    if a.len() > 0 {
        assert((a + x)[0] == a[0]);
        assert((a + x).drop_first() =~= a.drop_first() + x);
        assert forall|i: int| 0 <= i < a.drop_first().len() implies is_white(
            #[trigger] a.drop_first()[i],
        ) by {
            assert(is_white(a[i + 1]));
        }
        lemma_trim_start_skips(a.drop_first(), x);
    } else {
        assert(a + x =~= x);
    }
}

proof fn lemma_trim_end_skips(x: Seq<char>, b: Seq<char>)
    requires
        forall|i: int| 0 <= i < b.len() ==> is_white(#[trigger] b[i]),
        x.len() > 0 ==> !is_white(x.last()),
    ensures
        trim_end(x + b) == x,
    decreases b.len(),
{
    if b.len() > 0 {
        assert((x + b).last() == b[b.len() - 1]);
        assert((x + b).drop_last() =~= x + b.drop_last());
        assert forall|i: int| 0 <= i < b.drop_last().len() implies is_white(
            #[trigger] b.drop_last()[i],
        ) by {
            assert(is_white(b[i]));
        }
        lemma_trim_end_skips(x, b.drop_last());
    } else {
        assert(x + b =~= x);
    }
}

/// Trimming takes the white space at either end, all of it and nothing else.
pub proof fn law_trimmed(a: Seq<char>, x: Seq<char>, b: Seq<char>)
    requires
        forall|i: int| 0 <= i < a.len() ==> is_white(#[trigger] a[i]),
        forall|i: int| 0 <= i < b.len() ==> is_white(#[trigger] b[i]),
        x.len() > 0 ==> !is_white(x[0]) && !is_white(x.last()),
    ensures
        trimmed(a + x + b) == x,
        is_blank(a + x + b) <==> x.len() == 0,
{
    if x.len() == 0 {
        assert(a + x + b =~= (a + b) + x);
        assert forall|i: int| 0 <= i < (a + b).len() implies is_white(#[trigger] (a + b)[i]) by {
            if i < a.len() {
                assert(is_white(a[i]));
            } else {
                assert(is_white(b[i - a.len()]));
            }
        }
        lemma_trim_start_skips(a + b, x);
        assert(x =~= Seq::empty());
    } else {
        assert(a + x + b =~= a + (x + b));
        assert((x + b)[0] == x[0]);
        lemma_trim_start_skips(a, x + b);
        lemma_trim_end_skips(x, b);
    }
}

/// A text begins with what is put in front of it, ends with what is put behind it, and what is put
/// into it is found there.
pub proof fn law_found_where_it_stands(a: Seq<char>, p: Seq<char>, b: Seq<char>)
    ensures
        has_prefix(p + b, p),
        has_suffix(a + p, p),
        has(a + p + b, p),
{
    assert((p + b).take(p.len() as int) =~= p);
    assert((a + p).skip(a.len() as int) =~= p);
    let t = a + p + b;
    lemma_find_from(t, p, 0);
    assert(t.subrange(a.len() as int, a.len() as int + p.len()) =~= p);
    assert(occurs_at(t, p, a.len() as int));
}

/// What a text begins or ends with, or what is found in it, stands there character by character.
pub proof fn law_stands_where_it_is_found(s: Seq<char>, p: Seq<char>)
    ensures
        has_prefix(s, p) ==> p.len() <= s.len() && forall|i: int|
            0 <= i < p.len() ==> #[trigger] p[i] == s[i],
        has_suffix(s, p) ==> p.len() <= s.len() && forall|i: int|
            0 <= i < p.len() ==> #[trigger] p[i] == s[s.len() - p.len() + i],
        has(s, p) ==> exists|k: int|
            0 <= k <= s.len() - p.len() && #[trigger] s.subrange(k, k + p.len()) == p,
{
    if has_prefix(s, p) {
        assert forall|i: int| 0 <= i < p.len() implies #[trigger] p[i] == s[i] by {
            assert(s.take(p.len() as int)[i] == s[i]);
        }
    }
    if has_suffix(s, p) {
        assert forall|i: int| 0 <= i < p.len() implies #[trigger] p[i] == s[s.len() - p.len() + i] by {
            assert(s.skip(s.len() - p.len())[i] == s[s.len() - p.len() + i]);
        }
    }
    lemma_find_from(s, p, 0);
}

/// Replacing puts `w` in the place of every `p`, from the left, and leaves the rest.
pub proof fn law_replaced(a: Seq<char>, p: Seq<char>, b: Seq<char>, w: Seq<char>)
    requires
        p.len() > 0,
    ensures
        find_from(b, p, 0) is None ==> replaced(b, p, w) == b,
        (forall|j: int| 0 <= j < a.len() ==> !occurs_at(a + p + b, p, j)) ==> replaced(
            a + p + b,
            p,
            w,
        ) == a + w + replaced(b, p, w),
{
    let s = a + p + b;
    let n = a.len() as int;
    if forall|j: int| 0 <= j < a.len() ==> !occurs_at(a + p + b, p, j) {
        assert(s.subrange(n, n + p.len()) =~= p);
        lemma_find_from(s, p, 0);
        assert(occurs_at(s, p, n));
        assert(find_from(s, p, 0) == Some(n));
        assert(s.take(n) =~= a);
        assert(s.skip(n + p.len()) =~= b);
    }
}

/// The pieces of a text are what stands between the separators.
pub proof fn law_split(a: Seq<char>, c: char, b: Seq<char>)
    requires
        forall|i: int| 0 <= i < a.len() ==> a[i] != c,
    ensures
        split_on(a, c) == seq![a],
        split_on(a + seq![c] + b, c) == seq![a] + split_on(b, c),
{
    let s = a + seq![c] + b;
    let n = a.len() as int;
    lemma_next_char(a, c, 0, n);
    assert(s[n] == c);
    lemma_next_char(s, c, 0, n);
    let i = next_char(s, c, 0);
    if i < n {
        assert(s[i] == a[i]);
    }
    assert(s.take(n) =~= a);
    assert(s.skip(n + 1) =~= b);
}

/// The lines of a text are what stands between the line feeds, without a carriage return at their
/// end.
pub proof fn law_lines(a: Seq<char>, b: Seq<char>)
    requires
        forall|i: int| 0 <= i < a.len() ==> a[i] != '\n',
    ensures
        lines_of(Seq::empty()) == Seq::<Seq<char>>::empty(),
        a.len() > 0 ==> lines_of(a) == seq![a],
        a.len() > 0 && a.last() == '\r' ==> lines_of(a + seq!['\n'] + b) == seq![a.drop_last()]
            + lines_of(b),
        !(a.len() > 0 && a.last() == '\r') ==> lines_of(a + seq!['\n'] + b) == seq![a] + lines_of(
            b,
        ),
{
    let s = a + seq!['\n'] + b;
    let n = a.len() as int;
    lemma_next_char(a, '\n', 0, n);
    assert(s[n] == '\n');
    lemma_next_char(s, '\n', 0, n);
    let i = next_char(s, '\n', 0);
    if i < n {
        assert(s[i] == a[i]);
    }
    assert(s.take(n) =~= a);
    assert(s.skip(n + 1) =~= b);
}

/// Behind the last separator stands what follows it; without one, everything.
pub proof fn law_after_last(a: Seq<char>, c: char, b: Seq<char>)
    requires
        forall|i: int| 0 <= i < b.len() ==> b[i] != c,
    ensures
        after_last(b, c) == b,
        after_last(a + seq![c] + b, c) == b,
    decreases b.len(),
{
    let s = a + seq![c] + b;
    if b.len() == 0 {
        assert(s.last() == c);
        assert(b =~= Seq::empty());
    } else {
        assert(s.last() == b[b.len() - 1]);
        assert(s.drop_last() =~= a + seq![c] + b.drop_last());
        law_after_last(a, c, b.drop_last());
        assert(b.drop_last().push(b.last()) =~= b);
    }
}

/// A number is written in decimal digits without a leading zero, and reads back.
pub proof fn law_decimal(n: nat)
    ensures
        dec(n).len() > 0,
        forall|i: int| 0 <= i < dec(n).len() ==> '0' <= #[trigger] dec(n)[i] <= '9',
        n >= 10 ==> dec(n)[0] != '0' && dec(n) == dec(n / 10) + seq![digit(n % 10)],
        n < 10 ==> dec(n) == seq![digit(n)] && digit(n) as int == 48 + n,
        unsigned(dec(n)) == Some(n),
    decreases n,
{
    lemma_dec_reads_back(n);
    if n >= 10 {
        law_decimal(n / 10);
        assert(dec(n) =~= dec(n / 10) + seq![digit(n % 10)]);
        assert(dec(n)[0] == dec(n / 10)[0]);
    }
}

/// Each digit more makes ten times the number and the digit; a plus sign in front changes nothing,
/// and with any other character it is no number.
pub proof fn law_unsigned(s: Seq<char>, c: char)
    ensures
        '0' <= c <= '9' ==> unsigned(seq![c]) == Some((c as int - 48) as nat),
        s.len() > 0 && '0' <= c <= '9' ==> (match unsigned(s) {
            Some(n) => unsigned(s.push(c)) == Some((10 * n + c as int - 48) as nat),
            None => s != seq!['+'] ==> unsigned(s.push(c)) is None,
        }),
        !('0' <= c <= '9') ==> unsigned(s.push(c)) is None,
        s.len() > 0 && s[0] != '+' ==> unsigned(seq!['+'] + s) == unsigned(s),
        unsigned(Seq::empty()) is None,
{
    assert(seq![c].drop_last() =~= Seq::empty());
    assert(value_of(Seq::empty()) == 0);
    let w = s.push(c);
    let t = if s.len() > 0 && s[0] == '+' {
        s.drop_first()
    } else {
        s
    };
    if s.len() > 0 {
        assert(w[0] == s[0]);
        let u = if s[0] == '+' {
            w.drop_first()
        } else {
            w
        };
        assert(u =~= t.push(c));
        assert(u.drop_last() =~= t);
        assert(u.last() == c);
        if '0' <= c <= '9' {
            if all_digits(t) {
                assert(all_digits(u)) by {
                    assert forall|i: int| 0 <= i < u.len() implies '0' <= #[trigger] u[i] <= '9' by {
                        if i < t.len() {
                            assert(u[i] == t[i]);
                        }
                    }
                }
                if t.len() == 0 {
                    assert(s =~= seq!['+']);
                }
            } else {
                let i = choose|i: int| 0 <= i < t.len() && !('0' <= #[trigger] t[i] <= '9');
                assert(u[i] == t[i]);
            }
        } else {
            assert(u[u.len() - 1] == c);
        }
    } else {
        assert(w =~= seq![c]);
        if c == '+' {
            assert(w.drop_first() =~= Seq::empty());
        } else {
            assert(w[0] == c);
        }
    }
    assert((seq!['+'] + s).drop_first() =~= s);
}

/// Texts come in the order of the first characters in which they differ, and a text comes before
/// its own continuations.
pub proof fn law_order(x: Seq<char>, c: char, y: Seq<char>, d: char, z: Seq<char>)
    ensures
        c != d ==> (precedes(x + seq![c] + y, x + seq![d] + z) <==> c < d),
        precedes(x, x + seq![c] + y),
        !precedes(x + seq![c] + y, x),
    decreases x.len(),
{
    let a = x + seq![c] + y;
    let b = x + seq![d] + z;
    if x.len() > 0 {
        assert(a[0] == x[0] && b[0] == x[0]);
        assert(a.drop_first() =~= x.drop_first() + seq![c] + y);
        assert(b.drop_first() =~= x.drop_first() + seq![d] + z);
        law_order(x.drop_first(), c, y, d, z);
    } else {
        assert(a[0] == c && b[0] == d);
    }
}

/// A number that is too large is none; any other is itself.
pub proof fn law_number_up_to(s: Seq<char>, max: int)
    ensures
        unsigned_up_to(s, max) is Some <==> unsigned(s) is Some && unsigned(s)->0 <= max,
        unsigned_up_to(s, max) is Some ==> unsigned_up_to(s, max) == unsigned(s),
{
}

/// A negative number is written with one sign in front of what stands for the number without it.
pub proof fn law_signed(n: nat)
    ensures
        dec_int(n as int) == dec(n),
        n > 0 ==> dec_int(-(n as int)) == seq!['-'] + dec(n),
{
}

/// A number is filled up with zeros in front to the width, and one that is wider stays whole.
pub proof fn law_padded(n: nat, width: int)
    ensures
        dec_padded(n as int, width).len() == if dec(n).len() >= width {
            dec(n).len() as int
        } else {
            width
        },
        dec_padded(n as int, width).skip(dec_padded(n as int, width).len() - dec(n).len()) == dec(n),
        forall|i: int|
            0 <= i < dec_padded(n as int, width).len() - dec(n).len() ==> (
            #[trigger] dec_padded(n as int, width)[i]) == '0',
{
    let p = dec_padded(n as int, width);
    assert(p.skip(p.len() - dec(n).len()) =~= dec(n));
}

/// A text that is there is seen, and one that is not is not.
pub proof fn law_optional(t: Option<String>)
    ensures
        t matches Some(x) ==> optional(t) == Some(x@),
        t is None ==> optional(t) is None,
{
}

/// The next position is the first that holds the character; where none does, the search ends with
/// the text.
pub proof fn law_next_char(s: Seq<char>, c: char, i: int)
    requires
        0 <= i <= s.len(),
    ensures
        i <= next_char(s, c, i) <= s.len(),
        next_char(s, c, i) < s.len() ==> s[next_char(s, c, i)] == c,
        forall|k: int| i <= k < next_char(s, c, i) ==> s[k] != c,
    decreases s.len() - i,
{
    if i < s.len() && s[i] != c {
        law_next_char(s, c, i + 1);
    }
}

/// White space in front goes, and nothing else.
pub proof fn law_trim_start(a: Seq<char>, x: Seq<char>)
    requires
        forall|i: int| 0 <= i < a.len() ==> is_white(#[trigger] a[i]),
        x.len() > 0 ==> !is_white(x[0]),
    ensures
        trim_start(a + x) == x,
    decreases a.len(),
{
    if a.len() == 0 {
        assert(a + x =~= x);
    } else {
        assert((a + x)[0] == a[0]);
        assert((a + x).drop_first() =~= a.drop_first() + x);
        assert forall|i: int| 0 <= i < a.drop_first().len() implies is_white(
            #[trigger] a.drop_first()[i],
        ) by {
            assert(a.drop_first()[i] == a[i + 1]);
        }
        law_trim_start(a.drop_first(), x);
    }
}

} // verus!
