use vstd::prelude::*;
use crate::ident::IdentView;
use crate::depot::{latest_matching, latest_revision};
use crate::version::{SegKey, chars_cmp, seg_cmp, keys_cmp, ident_cmp, ident_lt, segment_keys, opt_text};

verus! {

proof fn lemma_chars_cmp_basic(a: Seq<char>, b: Seq<char>)
    ensures
        chars_cmp(a, b) == -chars_cmp(b, a),
        chars_cmp(a, b) == 0 <==> a == b,
    decreases a.len(),
{
    if a.len() > 0 && b.len() > 0 && a[0] == b[0] {
        lemma_chars_cmp_basic(a.skip(1), b.skip(1));
        if a.skip(1) == b.skip(1) {
            assert forall|i: int| 0 <= i < a.len() implies a[i] == b[i] by {
                if i > 0 {
                    assert(a[i] == a.skip(1)[i - 1]);
                    assert(b[i] == b.skip(1)[i - 1]);
                }
            }
            assert(a =~= b);
        }
    }
    if a == b && a.len() > 0 {
        assert(a.skip(1) == b.skip(1));
    }
    if a.len() == 0 && b.len() == 0 {
        assert(a =~= b);
    }
}

proof fn lemma_chars_cmp_trans(a: Seq<char>, b: Seq<char>, c: Seq<char>)
    requires
        chars_cmp(a, b) < 0,
        chars_cmp(b, c) < 0,
    ensures
        chars_cmp(a, c) < 0,
    decreases a.len(),
{
    if a.len() > 0 && a[0] == b[0] && b[0] == c[0] {
        lemma_chars_cmp_trans(a.skip(1), b.skip(1), c.skip(1));
    }
}

proof fn lemma_seg_cmp_basic(x: SegKey, y: SegKey)
    ensures
        seg_cmp(x, y) == -seg_cmp(y, x),
        seg_cmp(x, y) == 0 <==> x == y,
{
    match (x, y) {
        (SegKey::Text(s), SegKey::Text(t)) => lemma_chars_cmp_basic(s, t),
        _ => {},
    }
}

proof fn lemma_seg_cmp_trans(x: SegKey, y: SegKey, z: SegKey)
    requires
        seg_cmp(x, y) < 0,
        seg_cmp(y, z) < 0,
    ensures
        seg_cmp(x, z) < 0,
{
    match (x, y, z) {
        (SegKey::Text(s), SegKey::Text(t), SegKey::Text(u)) => lemma_chars_cmp_trans(s, t, u),
        _ => {},
    }
}

proof fn lemma_keys_cmp_basic(a: Seq<SegKey>, b: Seq<SegKey>)
    ensures
        keys_cmp(a, b) == -keys_cmp(b, a),
        keys_cmp(a, b) == 0 <==> a == b,
    decreases a.len(),
{
    if a.len() > 0 && b.len() > 0 {
        lemma_seg_cmp_basic(a[0], b[0]);
        if seg_cmp(a[0], b[0]) == 0 {
            lemma_keys_cmp_basic(a.skip(1), b.skip(1));
            if a.skip(1) == b.skip(1) {
                assert forall|i: int| 0 <= i < a.len() implies a[i] == b[i] by {
                    if i > 0 {
                        assert(a[i] == a.skip(1)[i - 1]);
                        assert(b[i] == b.skip(1)[i - 1]);
                    }
                }
                assert(a =~= b);
            }
        }
    }
    if a == b && a.len() > 0 {
        lemma_seg_cmp_basic(a[0], b[0]);
        assert(a.skip(1) == b.skip(1));
    }
    if a.len() == 0 && b.len() == 0 {
        assert(a =~= b);
    }
}

proof fn lemma_keys_cmp_trans(a: Seq<SegKey>, b: Seq<SegKey>, c: Seq<SegKey>)
    requires
        keys_cmp(a, b) < 0,
        keys_cmp(b, c) < 0,
    ensures
        keys_cmp(a, c) < 0,
    decreases a.len(),
{
    if a.len() > 0 && b.len() > 0 && c.len() > 0 {
        lemma_seg_cmp_basic(a[0], b[0]);
        lemma_seg_cmp_basic(b[0], c[0]);
        lemma_seg_cmp_basic(a[0], c[0]);
        if seg_cmp(a[0], b[0]) == 0 && seg_cmp(b[0], c[0]) == 0 {
            lemma_keys_cmp_trans(a.skip(1), b.skip(1), c.skip(1));
        } else if seg_cmp(a[0], b[0]) < 0 && seg_cmp(b[0], c[0]) < 0 {
            lemma_seg_cmp_trans(a[0], b[0], c[0]);
        }
    }
}

/// No identity is newer than itself.
pub proof fn lemma_ident_lt_irreflexive(a: IdentView)
    ensures
        !ident_lt(a, a),
{
    lemma_keys_cmp_basic(segment_keys(opt_text(a.version)), segment_keys(opt_text(a.version)));
    lemma_keys_cmp_basic(segment_keys(opt_text(a.release)), segment_keys(opt_text(a.release)));
}

/// "Newer than" is transitive.
pub proof fn lemma_ident_lt_transitive(a: IdentView, b: IdentView, c: IdentView)
    requires
        ident_lt(a, b),
        ident_lt(b, c),
    ensures
        ident_lt(a, c),
{
    let (va, vb, vc) = (
        segment_keys(opt_text(a.version)),
        segment_keys(opt_text(b.version)),
        segment_keys(opt_text(c.version)),
    );
    let (ra, rb, rc) = (
        segment_keys(opt_text(a.release)),
        segment_keys(opt_text(b.release)),
        segment_keys(opt_text(c.release)),
    );
    lemma_keys_cmp_basic(va, vb);
    lemma_keys_cmp_basic(vb, vc);
    lemma_keys_cmp_basic(va, vc);
    if keys_cmp(va, vb) < 0 && keys_cmp(vb, vc) < 0 {
        lemma_keys_cmp_trans(va, vb, vc);
    } else if keys_cmp(va, vb) == 0 && keys_cmp(vb, vc) == 0 {
        lemma_keys_cmp_trans(ra, rb, rc);
    }
}

/// Latest resolution: where some identity of `s` satisfies `q`, "latest"
/// gives one of them, and none of them is newer than it; where none does,
/// it gives nothing.
pub proof fn lemma_latest_is_newest(s: Seq<IdentView>, q: IdentView)
    ensures
        match latest_matching(s, q) {
            Some(x) => {
                &&& s.contains(x)
                &&& q.satisfied_by(x)
                &&& forall|j: int| 0 <= j < s.len() && q.satisfied_by(#[trigger] s[j]) ==> !ident_lt(x, s[j])
            },
            None => forall|j: int| 0 <= j < s.len() ==> !q.satisfied_by(#[trigger] s[j]),
        },
    decreases s.len(),
{
    if s.len() > 0 {
        let p = s.drop_last();
        let k = s.last();
        let n = s.len() - 1;
        lemma_latest_is_newest(p, q);
        lemma_ident_lt_irreflexive(k);
        assert(s[n] == k);
        assert forall|j: int| 0 <= j < n implies s[j] == #[trigger] p[j] by {}
        match latest_matching(p, q) {
            None => {
                assert forall|j: int| 0 <= j < n implies !q.satisfied_by(#[trigger] s[j]) by {
                    assert(s[j] == p[j]);
                }
                if q.satisfied_by(k) {
                    assert(s.contains(k));
                }
            },
            Some(b) => {
                let i = choose|i: int| 0 <= i < p.len() && p[i] == b;
                assert(s[i] == b);
                assert(s.contains(b));
                if q.satisfied_by(k) && ident_lt(b, k) {
                    assert(s.contains(k));
                    assert forall|j: int| 0 <= j < s.len() && q.satisfied_by(#[trigger] s[j]) implies !ident_lt(
                        k,
                        s[j],
                    ) by {
                        if j < n {
                            assert(p[j] == s[j]);
                            if ident_lt(k, s[j]) {
                                lemma_ident_lt_transitive(b, k, s[j]);
                            }
                        }
                    }
                } else {
                    assert forall|j: int| 0 <= j < s.len() && q.satisfied_by(#[trigger] s[j]) implies !ident_lt(
                        b,
                        s[j],
                    ) by {
                        if j < n {
                            assert(p[j] == s[j]);
                        }
                    }
                }
            },
        }
    }
}

/// The latest key revision of an origin: where the origin has keys, one of
/// its revisions, and none of its revisions is greater; else nothing.
pub proof fn lemma_latest_revision_is_greatest(keys: Seq<(Seq<char>, Seq<char>)>, o: Seq<char>)
    ensures
        match latest_revision(keys, o) {
            Some(r) => {
                &&& keys.contains((o, r))
                &&& forall|j: int| 0 <= j < keys.len() && (#[trigger] keys[j]).0 == o ==> !(chars_cmp(r, keys[j].1) < 0)
            },
            None => forall|j: int| 0 <= j < keys.len() ==> (#[trigger] keys[j]).0 != o,
        },
    decreases keys.len(),
{
    if keys.len() > 0 {
        let p = keys.drop_last();
        let k = keys.last();
        let n = keys.len() - 1;
        lemma_latest_revision_is_greatest(p, o);
        lemma_chars_cmp_basic(k.1, k.1);
        assert(keys[n] == k);
        assert forall|j: int| 0 <= j < n implies keys[j] == #[trigger] p[j] by {}
        match latest_revision(p, o) {
            None => {
                assert forall|j: int| 0 <= j < n implies (#[trigger] keys[j]).0 != o by {
                    assert(keys[j] == p[j]);
                }
                if k.0 == o {
                    assert(keys.contains((o, k.1)));
                }
            },
            Some(b) => {
                let i = choose|i: int| 0 <= i < p.len() && p[i] == (o, b);
                assert(keys[i] == (o, b));
                assert(keys.contains((o, b)));
                if k.0 == o && chars_cmp(b, k.1) < 0 {
                    assert(keys.contains((o, k.1)));
                    assert forall|j: int| 0 <= j < keys.len() && (#[trigger] keys[j]).0 == o implies !(chars_cmp(
                        k.1,
                        keys[j].1,
                    ) < 0) by {
                        if j < n {
                            assert(p[j] == keys[j]);
                            if chars_cmp(k.1, keys[j].1) < 0 {
                                lemma_chars_cmp_trans(b, k.1, keys[j].1);
                            }
                        }
                    }
                } else {
                    assert forall|j: int| 0 <= j < keys.len() && (#[trigger] keys[j]).0 == o implies !(chars_cmp(
                        b,
                        keys[j].1,
                    ) < 0) by {
                        if j < n {
                            assert(p[j] == keys[j]);
                        } else {
                            lemma_chars_cmp_basic(b, k.1);
                        }
                    }
                }
            },
        }
    }
}

} // verus!
