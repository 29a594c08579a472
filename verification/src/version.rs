//! Dotted numeric version comparison.
//!
//! A version string is split on `.`; segments that are not a numeric `u32`
//! are treated as absent. Comparison is position by position, with missing
//! trailing segments read as 0.

use vstd::prelude::*;

use crate::strutil::{parse_u32_seq, parse_u32_str, split_seq, split_str};

verus! {

/// Numeric values of the parseable segments, in order; unparsable segments
/// are absent.
pub open spec fn numeric_values(segs: Seq<Seq<char>>) -> Seq<int>
    decreases segs.len(),
{
    if segs.len() == 0 {
        Seq::empty()
    } else {
        let rest = numeric_values(segs.skip(1));
        match parse_u32_seq(segs[0]) {
            Some(v) => seq![v as int] + rest,
            None => rest,
        }
    }
}

/// The numeric segments of a dotted version string.
pub open spec fn version_nums(s: Seq<char>) -> Seq<int> {
    numeric_values(split_seq(s, seq!['.']))
}

/// Position-wise comparison of two segment value lists, missing trailing
/// positions read as 0: 1 when `a` is larger, -1 when smaller, 0 when equal.
pub open spec fn cmp_num_seqs(a: Seq<int>, b: Seq<int>) -> int
    decreases a.len() + b.len(),
{
    if a.len() == 0 && b.len() == 0 {
        0
    } else {
        let x = if a.len() > 0 {
            a[0]
        } else {
            0
        };
        let y = if b.len() > 0 {
            b[0]
        } else {
            0
        };
        if x > y {
            1
        } else if x < y {
            -1
        } else {
            cmp_num_seqs(
                if a.len() > 0 {
                    a.skip(1)
                } else {
                    a
                },
                if b.len() > 0 {
                    b.skip(1)
                } else {
                    b
                },
            )
        }
    }
}

/// What `compare_versions` decides for two version strings.
pub open spec fn cmp_versions(v1: Seq<char>, v2: Seq<char>) -> int {
    cmp_num_seqs(version_nums(v1), version_nums(v2))
}

/// Exec parse of a version string into its numeric segments.
pub fn parse_version_segments(s: &str) -> (v: Vec<u32>)
    ensures
        v@.map_values(|x: u32| x as int) == version_nums(s@),
{
    proof {
        reveal_strlit(".");
        assert("."@ =~= seq!['.']);
    }
    let segs = split_str(s, ".");
    let ghost dv = segs.deep_view();
    let mut v: Vec<u32> = Vec::new();
    let n = segs.len();
    let mut i: usize = 0;
    proof {
        assert(dv.skip(0) =~= dv);
    }
    while i < n
        invariant
            0 <= i <= n,
            n == segs@.len(),
            dv == segs.deep_view(),
            numeric_values(dv) =~= v@.map_values(|x: u32| x as int) + numeric_values(
                dv.skip(i as int),
            ),
        decreases n - i,
    {
        let ghost prev = v@;
        proof {
            assert(dv.skip(i as int).skip(1) =~= dv.skip(i as int + 1));
            assert(dv.skip(i as int)[0] == dv[i as int]);
        }
        match parse_u32_str(segs[i].as_str()) {
            Some(x) => {
                v.push(x);
                proof {
                    assert(v@.map_values(|x: u32| x as int) =~= prev.map_values(|x: u32| x as int)
                        + seq![x as int]);
                }
            },
            None => {},
        }
        i = i + 1;
    }
    proof {
        assert(numeric_values(dv.skip(n as int)) =~= Seq::<int>::empty());
        assert(v@.map_values(|x: u32| x as int) =~= numeric_values(dv));
    }
    v
}

/// First-or-zero-padded tail of a value list, used to phrase loop invariants.
pub open spec fn tail_from(s: Seq<int>, i: int) -> Seq<int> {
    if i < s.len() {
        s.skip(i)
    } else {
        Seq::empty()
    }
}

/// Compare two dotted version strings. Returns 1 when `v1` is the larger
/// version, -1 when the smaller, 0 when they are numerically equal.
pub fn compare_versions(v1: &str, v2: &str) -> (r: i32)
    ensures
        r as int == cmp_versions(v1@, v2@),
{
    let p1 = parse_version_segments(v1);
    let p2 = parse_version_segments(v2);
    let ghost a0 = p1@.map_values(|x: u32| x as int);
    let ghost b0 = p2@.map_values(|x: u32| x as int);
    let n1 = p1.len();
    let n2 = p2.len();
    let n = if n1 > n2 {
        n1
    } else {
        n2
    };
    let mut i: usize = 0;
    proof {
        assert(tail_from(a0, 0) =~= a0);
        assert(tail_from(b0, 0) =~= b0);
    }
    while i < n
        invariant
            0 <= i <= n,
            n1 == p1@.len(),
            n2 == p2@.len(),
            n == if n1 > n2 {
                n1
            } else {
                n2
            },
            a0 == p1@.map_values(|x: u32| x as int),
            b0 == p2@.map_values(|x: u32| x as int),
            a0 == version_nums(v1@),
            b0 == version_nums(v2@),
            cmp_num_seqs(a0, b0) == cmp_num_seqs(tail_from(a0, i as int), tail_from(b0, i as int)),
        decreases n - i,
    {
        let x: u32 = if i < n1 {
            p1[i]
        } else {
            0
        };
        let y: u32 = if i < n2 {
            p2[i]
        } else {
            0
        };
        proof {
            assert(a0.len() == n1 && b0.len() == n2);
            let ta = tail_from(a0, i as int);
            let tb = tail_from(b0, i as int);
            if i < n1 {
                assert(ta[0] == a0[i as int]);
                assert(ta.skip(1) =~= tail_from(a0, i as int + 1));
            }
            if i < n2 {
                assert(tb[0] == b0[i as int]);
                assert(tb.skip(1) =~= tail_from(b0, i as int + 1));
            }
            let sx: int = if ta.len() > 0 {
                ta[0]
            } else {
                0
            };
            let sy: int = if tb.len() > 0 {
                tb[0]
            } else {
                0
            };
            assert(sx == x as int);
            assert(sy == y as int);
            if x > y {
                assert(cmp_num_seqs(ta, tb) == 1);
            } else if x < y {
                assert(cmp_num_seqs(ta, tb) == -1);
            }
        }
        if x > y {
            return 1;
        }
        if x < y {
            return -1;
        }
        i = i + 1;
    }
    proof {
        assert(cmp_num_seqs(tail_from(a0, n as int), tail_from(b0, n as int)) == 0);
    }
    0
}

/// Comparison is antisymmetric: swapping the arguments negates the result.
pub proof fn lemma_cmp_num_seqs_antisymmetric(a: Seq<int>, b: Seq<int>)
    ensures
        cmp_num_seqs(a, b) == -cmp_num_seqs(b, a),
    decreases a.len() + b.len(),
{
    if a.len() == 0 && b.len() == 0 {
    } else {
        let x = if a.len() > 0 {
            a[0]
        } else {
            0
        };
        let y = if b.len() > 0 {
            b[0]
        } else {
            0
        };
        if x == y {
            lemma_cmp_num_seqs_antisymmetric(
                if a.len() > 0 {
                    a.skip(1)
                } else {
                    a
                },
                if b.len() > 0 {
                    b.skip(1)
                } else {
                    b
                },
            );
        }
    }
}

/// Comparison of a list with itself is "equal".
pub proof fn lemma_cmp_num_seqs_reflexive(a: Seq<int>)
    ensures
        cmp_num_seqs(a, a) == 0,
    decreases a.len(),
{
    if a.len() > 0 {
        lemma_cmp_num_seqs_reflexive(a.skip(1));
    }
}

/// `compare_versions(a, b)` is the negation of `compare_versions(b, a)`,
/// for all dotted version strings.
pub proof fn lemma_compare_versions_antisymmetric(v1: Seq<char>, v2: Seq<char>)
    ensures
        cmp_versions(v1, v2) == -cmp_versions(v2, v1),
{
    lemma_cmp_num_seqs_antisymmetric(version_nums(v1), version_nums(v2));
}

/// `compare_versions(a, a)` is "equal", for all version strings.
pub proof fn lemma_compare_versions_reflexive(v: Seq<char>)
    ensures
        cmp_versions(v, v) == 0,
{
    lemma_cmp_num_seqs_reflexive(version_nums(v));
}

} // verus!
