use vstd::prelude::*;
use vstd::string::*;
use crate::ident::{IdentView, PackageIdent};

verus! {

pub open spec fn is_digit(c: char) -> bool {
    '0' <= c && c <= '9'
}

pub open spec fn all_digits(s: Seq<char>) -> bool {
    forall|i: int| 0 <= i < s.len() ==> is_digit(#[trigger] s[i])
}

/// The number that a string of decimal digits denotes.
pub open spec fn digits_value(s: Seq<char>) -> nat
    decreases s.len(),
{
    if s.len() == 0 {
        0
    } else {
        digits_value(s.drop_last()) * 10 + ((s.last() as u32) - ('0' as u32)) as nat
    }
}

/// One dot-separated part of a version or release, as compared.
pub enum SegKey {
    /// A part that is all digits and names a number of 64 bits.
    Num(nat),
    /// Any other part, compared character by character.
    Text(Seq<char>),
}

pub open spec fn seg_key(s: Seq<char>) -> SegKey {
    if s.len() > 0 && all_digits(s) && digits_value(s) <= u64::MAX {
        SegKey::Num(digits_value(s))
    } else {
        SegKey::Text(s)
    }
}

/// The parts of `s` between dots, from left to right.
pub open spec fn split_dots(s: Seq<char>) -> Seq<Seq<char>>
    decreases s.len(),
{
    if s.len() == 0 {
        seq![Seq::<char>::empty()]
    } else {
        let p = split_dots(s.drop_last());
        if s.last() == '.' {
            p.push(Seq::<char>::empty())
        } else {
            p.update(p.len() - 1, p.last().push(s.last()))
        }
    }
}

pub open spec fn segment_keys(s: Seq<char>) -> Seq<SegKey> {
    split_dots(s).map_values(|p: Seq<char>| seg_key(p))
}

/// Three-way lexicographic comparison by code point: -1, 0 or 1.
pub open spec fn chars_cmp(a: Seq<char>, b: Seq<char>) -> int
    decreases a.len(),
{
    if a.len() == 0 {
        if b.len() == 0 { 0 } else { -1 }
    } else if b.len() == 0 {
        1
    } else if a[0] < b[0] {
        -1
    } else if a[0] > b[0] {
        1
    } else {
        chars_cmp(a.skip(1), b.skip(1))
    }
}

/// Numbers come before text; numbers by value, text by `chars_cmp`.
pub open spec fn seg_cmp(x: SegKey, y: SegKey) -> int {
    match (x, y) {
        (SegKey::Num(m), SegKey::Num(n)) => if m < n { -1 } else if m > n { 1 } else { 0 },
        (SegKey::Num(_), SegKey::Text(_)) => -1,
        (SegKey::Text(_), SegKey::Num(_)) => 1,
        (SegKey::Text(s), SegKey::Text(t)) => chars_cmp(s, t),
    }
}

/// Lexicographic comparison of two part lists; a proper prefix comes first.
pub open spec fn keys_cmp(a: Seq<SegKey>, b: Seq<SegKey>) -> int
    decreases a.len(),
{
    if a.len() == 0 {
        if b.len() == 0 { 0 } else { -1 }
    } else if b.len() == 0 {
        1
    } else if seg_cmp(a[0], b[0]) != 0 {
        seg_cmp(a[0], b[0])
    } else {
        keys_cmp(a.skip(1), b.skip(1))
    }
}

pub open spec fn opt_text(o: Option<Seq<char>>) -> Seq<char> {
    match o {
        Some(s) => s,
        None => Seq::<char>::empty(),
    }
}

/// Compares two identities by version, then by release.
pub open spec fn ident_cmp(a: IdentView, b: IdentView) -> int {
    let c = keys_cmp(segment_keys(opt_text(a.version)), segment_keys(opt_text(b.version)));
    if c != 0 {
        c
    } else {
        keys_cmp(segment_keys(opt_text(a.release)), segment_keys(opt_text(b.release)))
    }
}

/// `b` is newer than `a`.
pub open spec fn ident_lt(a: IdentView, b: IdentView) -> bool {
    ident_cmp(a, b) < 0
}

/// A part of a version or release, as compared at run time.
#[derive(Debug)]
pub enum Segment {
    Num(u64),
    Text(Vec<char>),
}

impl View for Segment {
    type V = SegKey;

    open spec fn view(&self) -> SegKey {
        match self {
            Segment::Num(n) => SegKey::Num(*n as nat),
            Segment::Text(v) => SegKey::Text(v@),
        }
    }
}

/// The characters of `s`.
pub fn chars_of(s: &str) -> (r: Vec<char>)
    ensures
        r@ == s@,
{
    let n = s.unicode_len();
    let mut r: Vec<char> = Vec::new();
    let mut i: usize = 0;
    while i < n
        invariant
            n == s@.len(),
            i <= n,
            r@ == s@.take(i as int),
        decreases n - i,
    {
        let c = s.get_char(i);
        r.push(c);
        i = i + 1;
        assert(r@ =~= s@.take(i as int));
    }
    assert(r@ =~= s@);
    r
}

/// Splits `s` at each dot.
pub fn split_at_dots(s: &Vec<char>) -> (r: Vec<Vec<char>>)
    ensures
        r@.map_values(|v: Vec<char>| v@) == split_dots(s@),
{
    let mut done: Vec<Vec<char>> = Vec::new();
    let mut cur: Vec<char> = Vec::new();
    let mut i: usize = 0;
    while i < s.len()
        invariant
            i <= s@.len(),
            done@.map_values(|v: Vec<char>| v@).push(cur@) == split_dots(s@.take(i as int)),
        decreases s.len() - i,
    {
        let c = s[i];
        let ghost prev = s@.take(i as int);
        let ghost next = s@.take(i + 1);
        assert(next.drop_last() =~= prev);
        if c == '.' {
            let ghost old_done = done@.map_values(|v: Vec<char>| v@);
            let finished = cur;
            done.push(finished);
            cur = Vec::new();
            assert(done@.map_values(|v: Vec<char>| v@) =~= old_done.push(finished@));
            assert(done@.map_values(|v: Vec<char>| v@).push(cur@) =~= split_dots(next));
        } else {
            cur.push(c);
            assert(done@.map_values(|v: Vec<char>| v@).push(cur@) =~= split_dots(next));
        }
        i = i + 1;
    }
    assert(s@.take(s@.len() as int) =~= s@);
    let ghost old_done = done@.map_values(|v: Vec<char>| v@);
    let last = cur;
    done.push(last);
    assert(done@.map_values(|v: Vec<char>| v@) =~= old_done.push(last@));
    done
}

proof fn lemma_value_prefix(s: Seq<char>, i: int)
    requires
        0 <= i <= s.len(),
    ensures
        digits_value(s.take(i)) <= digits_value(s),
    decreases s.len(),
{
    if i < s.len() {
        lemma_value_prefix(s.drop_last(), i);
        assert(s.drop_last().take(i) =~= s.take(i));
    } else {
        assert(s.take(i) =~= s);
    }
}

fn copy_chars(v: &Vec<char>) -> (r: Vec<char>)
    ensures
        r@ == v@,
{
    let mut r: Vec<char> = Vec::new();
    let mut i: usize = 0;
    while i < v.len()
        invariant
            i <= v@.len(),
            r@ == v@.take(i as int),
        decreases v.len() - i,
    {
        r.push(v[i]);
        i = i + 1;
        assert(r@ =~= v@.take(i as int));
    }
    assert(r@ =~= v@);
    r
}

/// Reads one part: a number where it is all digits and fits in 64 bits,
/// text otherwise.
pub fn parse_segment(v: &Vec<char>) -> (r: Segment)
    ensures
        r@ == seg_key(v@),
{
    if v.len() == 0 {
        return Segment::Text(copy_chars(v));
    }
    let mut acc: u64 = 0;
    let mut i: usize = 0;
    while i < v.len()
        invariant
            i <= v@.len(),
            acc as nat == digits_value(v@.take(i as int)),
            all_digits(v@.take(i as int)),
        decreases v.len() - i,
    {
        let c = v[i];
        let ghost prev = v@.take(i as int);
        let ghost next = v@.take(i + 1);
        assert(next.drop_last() =~= prev);
        if !('0' <= c && c <= '9') {
            assert(!is_digit(v@[i as int]));
            return Segment::Text(copy_chars(v));
        }
        let d: u64 = ((c as u32) - ('0' as u32)) as u64;
        assert(all_digits(next)) by {
            assert forall|j: int| 0 <= j < next.len() implies is_digit(#[trigger] next[j]) by {
                if j < i {
                    assert(next[j] == prev[j]);
                }
            }
        }
        match acc.checked_mul(10) {
            Some(m) => match m.checked_add(d) {
                Some(n) => {
                    acc = n;
                },
                None => {
                    proof {
                        lemma_value_prefix(v@, i + 1);
                    }
                    return Segment::Text(copy_chars(v));
                },
            },
            None => {
                proof {
                    lemma_value_prefix(v@, i + 1);
                }
                return Segment::Text(copy_chars(v));
            },
        }
        i = i + 1;
    }
    assert(v@.take(v@.len() as int) =~= v@);
    Segment::Num(acc)
}

/// The parts of `s`, each read by `parse_segment`.
pub fn segments_of(s: &str) -> (r: Vec<Segment>)
    ensures
        r@.map_values(|g: Segment| g@) == segment_keys(s@),
{
    let cs = chars_of(s);
    let parts = split_at_dots(&cs);
    let ghost pv = parts@.map_values(|v: Vec<char>| v@);
    let mut r: Vec<Segment> = Vec::new();
    let mut i: usize = 0;
    while i < parts.len()
        invariant
            i <= parts@.len(),
            pv == split_dots(s@),
            pv == parts@.map_values(|v: Vec<char>| v@),
            r@.map_values(|g: Segment| g@) == pv.take(i as int).map_values(|p: Seq<char>| seg_key(p)),
        decreases parts.len() - i,
    {
        assert(pv[i as int] == parts@[i as int]@);
        let g = parse_segment(&parts[i]);
        let ghost old_r = r@.map_values(|g: Segment| g@);
        r.push(g);
        assert(r@.map_values(|g: Segment| g@) =~= old_r.push(g@));
        assert(pv.take(i + 1).map_values(|p: Seq<char>| seg_key(p)) =~= pv.take(i as int).map_values(
            |p: Seq<char>| seg_key(p),
        ).push(seg_key(pv[i as int])));
        i = i + 1;
        assert(r@.map_values(|g: Segment| g@) =~= pv.take(i as int).map_values(|p: Seq<char>| seg_key(p)));
    }
    assert(pv.take(pv.len() as int) =~= pv);
    r
}

/// Three-way comparison of characters by code point.
pub fn cmp_chars(a: &Vec<char>, b: &Vec<char>) -> (r: i8)
    ensures
        r as int == chars_cmp(a@, b@),
{
    let mut i: usize = 0;
    assert(a@.skip(0) =~= a@);
    assert(b@.skip(0) =~= b@);
    loop
        invariant
            i <= a@.len(),
            i <= b@.len(),
            chars_cmp(a@, b@) == chars_cmp(a@.skip(i as int), b@.skip(i as int)),
        decreases a@.len() - i,
    {
        if i == a.len() {
            return if i == b.len() { 0 } else { -1 };
        }
        if i == b.len() {
            return 1;
        }
        let x = a[i];
        let y = b[i];
        if x < y {
            return -1;
        }
        if x > y {
            return 1;
        }
        assert(a@.skip(i as int).skip(1) =~= a@.skip(i + 1));
        assert(b@.skip(i as int).skip(1) =~= b@.skip(i + 1));
        i = i + 1;
    }
}

pub fn cmp_segment(x: &Segment, y: &Segment) -> (r: i8)
    ensures
        r as int == seg_cmp(x@, y@),
{
    match x {
        Segment::Num(m) => match y {
            Segment::Num(n) => if *m < *n {
                -1
            } else if *m > *n {
                1
            } else {
                0
            },
            Segment::Text(_) => -1,
        },
        Segment::Text(s) => match y {
            Segment::Num(_) => 1,
            Segment::Text(t) => cmp_chars(s, t),
        },
    }
}

/// Lexicographic comparison of two part lists.
pub fn cmp_segments(a: &Vec<Segment>, b: &Vec<Segment>) -> (r: i8)
    ensures
        r as int == keys_cmp(a@.map_values(|g: Segment| g@), b@.map_values(|g: Segment| g@)),
{
    let ghost av = a@.map_values(|g: Segment| g@);
    let ghost bv = b@.map_values(|g: Segment| g@);
    let mut i: usize = 0;
    assert(av.skip(0) =~= av);
    assert(bv.skip(0) =~= bv);
    loop
        invariant
            i <= a@.len(),
            i <= b@.len(),
            av == a@.map_values(|g: Segment| g@),
            bv == b@.map_values(|g: Segment| g@),
            keys_cmp(av, bv) == keys_cmp(av.skip(i as int), bv.skip(i as int)),
        decreases a@.len() - i,
    {
        if i == a.len() {
            return if i == b.len() { 0 } else { -1 };
        }
        if i == b.len() {
            return 1;
        }
        let c = cmp_segment(&a[i], &b[i]);
        assert(av.skip(i as int)[0] == a@[i as int]@);
        assert(bv.skip(i as int)[0] == b@[i as int]@);
        if c != 0 {
            return c;
        }
        assert(av.skip(i as int).skip(1) =~= av.skip(i + 1));
        assert(bv.skip(i as int).skip(1) =~= bv.skip(i + 1));
        i = i + 1;
    }
}

fn text_or_empty(o: &Option<String>) -> (r: &str)
    ensures
        r@ == opt_text(crate::ident::opt_view(*o)),
{
    match o {
        Some(s) => s.as_str(),
        None => {
            let e = "";
            proof {
                reveal_strlit("");
            }
            assert(e@ =~= Seq::<char>::empty());
            e
        },
    }
}

/// Compares two identities by version, then by release: -1, 0 or 1.
pub fn compare_idents(a: &PackageIdent, b: &PackageIdent) -> (r: i8)
    ensures
        r as int == ident_cmp(a@, b@),
{
    let va = segments_of(text_or_empty(&a.version));
    let vb = segments_of(text_or_empty(&b.version));
    let c = cmp_segments(&va, &vb);
    if c != 0 {
        return c;
    }
    let ra = segments_of(text_or_empty(&a.release));
    let rb = segments_of(text_or_empty(&b.release));
    cmp_segments(&ra, &rb)
}

} // verus!
