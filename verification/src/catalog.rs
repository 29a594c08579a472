//! Driver version catalog: extracting candidate versions from the
//! package-listing query, ordering them, and correlating each with short
//! changelog text mined from repository metadata.
//!
//! The two regular-expression searches are the only outside calls; each is
//! wrapped once, and everything around them is verified.

use vstd::prelude::*;

use crate::strutil::{lines_seq, split_lines, str_eq, str_starts_with, trim_seq, trim_str};
use crate::version::{cmp_versions, compare_versions, lemma_compare_versions_antisymmetric};

verus! {

/// The version tokens that the package-listing pattern captures in `s`, in
/// order of occurrence; a function of the text alone.
pub uninterp spec fn akmod_versions_in(s: Seq<char>) -> Seq<Seq<char>>;

/// Relies on `regex::Regex::captures_iter` with the fixed pattern
/// `akmod-nvidia[^\s]*\s+(\d+\.\d+[\.\d]*)`: every dotted version token
/// standing after the driver package name, in order of occurrence. The
/// pattern is constant, so the result depends on the text alone.
#[verifier::external_body]
fn extract_akmod_versions(s: &str) -> (r: Vec<String>)
    ensures
        r@.len() == akmod_versions_in(s@).len(),
        forall|i: int| 0 <= i < r@.len() ==> r@[i]@ == akmod_versions_in(s@)[i],
{
    let re = match regex::Regex::new(r"akmod-nvidia[^\s]*\s+(\d+\.\d+[\.\d]*)") {
        Ok(re) => re,
        Err(_) => return Vec::new(),
    };
    let mut out = Vec::new();
    for cap in re.captures_iter(s) {
        if let Some(m) = cap.get(1) {
            out.push(m.as_str().to_string());
        }
    }
    out
}

/// Descending numeric order between every adjacent pair.
pub open spec fn sorted_desc(vs: Seq<String>) -> bool {
    forall|i: int| 0 <= i < vs.len() - 1 ==> cmp_versions(#[trigger] vs[i]@, vs[i + 1]@) >= 0
}

/// No two adjacent entries are the same string.
pub open spec fn adjacent_distinct(vs: Seq<String>) -> bool {
    forall|i: int| 0 <= i < vs.len() - 1 ==> (#[trigger] vs[i]@) != vs[i + 1]@
}

/// Some entry of `vs` reads `x`.
pub open spec fn contains_view(vs: Seq<String>, x: Seq<char>) -> bool {
    exists|i: int| 0 <= i < vs.len() && (#[trigger] vs[i]@) == x
}

/// Inserting preserves exactly the old entries plus the new one.
proof fn lemma_insert_contains_view(s: Seq<String>, p: int, x: String)
    requires
        0 <= p <= s.len(),
    ensures
        forall|v: Seq<char>| contains_view(s.insert(p, x), v) <==> (contains_view(s, v) || v == x@),
{
    s.insert_ensures(p, x);
    assert forall|v: Seq<char>|
        contains_view(s.insert(p, x), v) <==> (contains_view(s, v) || v == x@) by {
        if contains_view(s.insert(p, x), v) {
            let i = choose|i: int| 0 <= i < s.insert(p, x).len() && s.insert(p, x)[i]@ == v;
            if i < p {
                assert(s[i]@ == v);
            } else if i == p {
                assert(x@ == v);
            } else {
                assert(s[i - 1]@ == v);
            }
        }
        if contains_view(s, v) {
            let i = choose|i: int| 0 <= i < s.len() && s[i]@ == v;
            if i < p {
                assert(s.insert(p, x)[i]@ == v);
            } else {
                assert(s.insert(p, x)[i + 1]@ == v);
            }
        }
        if v == x@ {
            assert(s.insert(p, x)[p]@ == v);
        }
    }
}

/// Insert `x` into the descending-sorted `out`, keeping it sorted, before
/// the first entry that compares below `x`.
fn sorted_insert(out: &mut Vec<String>, x: String)
    requires
        sorted_desc(old(out)@),
    ensures
        sorted_desc(final(out)@),
        final(out)@.len() == old(out)@.len() + 1,
        forall|v: Seq<char>|
            contains_view(final(out)@, v) <==> (contains_view(old(out)@, v) || v == x@),
{
    let mut p: usize = 0;
    let n = out.len();
    while p < n && compare_versions(out[p].as_str(), x.as_str()) >= 0
        invariant
            0 <= p <= n,
            n == out@.len(),
            forall|k: int| 0 <= k < p ==> cmp_versions(#[trigger] out@[k]@, x@) >= 0,
        decreases n - p,
    {
        p = p + 1;
    }
    let ghost s0 = out@;
    let ghost pp = p as int;
    proof {
        if pp < s0.len() {
            lemma_compare_versions_antisymmetric(s0[pp]@, x@);
        }
        s0.insert_ensures(pp, x);
        lemma_insert_contains_view(s0, pp, x);
    }
    out.insert(p, x);
    proof {
        let s1 = out@;
        assert forall|i: int| 0 <= i < s1.len() - 1 implies cmp_versions(
            #[trigger] s1[i]@,
            s1[i + 1]@,
        ) >= 0 by {
            if i + 1 < pp {
                assert(s1[i] == s0[i] && s1[i + 1] == s0[i + 1]);
            } else if i + 1 == pp {
                assert(s1[i] == s0[i] && s1[i + 1] == x);
            } else if i == pp {
                assert(s1[i] == x && s1[i + 1] == s0[i]);
                assert(cmp_versions(s0[pp]@, x@) < 0);
            } else {
                assert(s1[i] == s0[i - 1] && s1[i + 1] == s0[i]);
            }
        }
    }
}

/// Remove adjacent duplicates from a descending-sorted list.
#[verifier::rlimit(50)]
fn dedup_adjacent(vs: &Vec<String>) -> (r: Vec<String>)
    requires
        sorted_desc(vs@),
    ensures
        sorted_desc(r@),
        adjacent_distinct(r@),
        forall|v: Seq<char>| contains_view(r@, v) <==> contains_view(vs@, v),
{
    let mut r: Vec<String> = Vec::new();
    let n = vs.len();
    let mut i: usize = 0;
    while i < n
        invariant
            0 <= i <= n,
            n == vs@.len(),
            sorted_desc(vs@),
            sorted_desc(r@),
            adjacent_distinct(r@),
            forall|v: Seq<char>| contains_view(r@, v) <==> contains_view(vs@.take(i as int), v),
            r@.len() > 0 ==> i > 0,
            (r@.len() > 0 && i < n) ==> cmp_versions(r@.last()@, vs@[i as int]@) >= 0,
            (r@.len() > 0 && i > 0) ==> r@.last()@ == vs@[i as int - 1]@,
        decreases n - i,
    {
        let ghost r0 = r@;
        let ghost ii = i as int;
        let mut push_it = true;
        if r.len() > 0 {
            if str_eq(r[r.len() - 1].as_str(), vs[i].as_str()) {
                push_it = false;
            }
        }
        if push_it {
            let item = vs[i].clone();
            proof {
                assert(item@ == vs@[ii]@);
            }
            r.push(item);
            proof {
                assert forall|k: int| 0 <= k < r@.len() - 1 implies cmp_versions(
                    #[trigger] r@[k]@,
                    r@[k + 1]@,
                ) >= 0 by {
                    if k < r0.len() - 1 {
                        assert(r@[k] == r0[k] && r@[k + 1] == r0[k + 1]);
                    } else {
                        assert(r@[k] == r0.last() && r@[k + 1]@ == vs@[ii]@);
                    }
                }
                assert forall|k: int| 0 <= k < r@.len() - 1 implies (#[trigger] r@[k]@) != r@[k
                    + 1]@ by {
                    if k < r0.len() - 1 {
                        assert(r@[k] == r0[k] && r@[k + 1] == r0[k + 1]);
                    } else {
                        assert(r@[k] == r0.last() && r@[k + 1]@ == vs@[ii]@);
                    }
                }
                assert forall|v: Seq<char>|
                    contains_view(r@, v) <==> contains_view(vs@.take(ii + 1), v) by {
                    if contains_view(r@, v) {
                        let k = choose|k: int| 0 <= k < r@.len() && (#[trigger] r@[k])@ == v;
                        if k < r0.len() {
                            assert(r0[k]@ == v);
                            assert(contains_view(r0, v));
                            assert(contains_view(vs@.take(ii), v));
                            let m = choose|m: int|
                                0 <= m < vs@.take(ii).len() && (#[trigger] vs@.take(ii)[m])@ == v;
                            assert(vs@.take(ii + 1)[m]@ == v);
                            assert(contains_view(vs@.take(ii + 1), v));
                        } else {
                            assert(r@[k]@ == vs@[ii]@);
                            assert(vs@.take(ii + 1)[ii]@ == v);
                            assert(contains_view(vs@.take(ii + 1), v));
                        }
                    }
                    if contains_view(vs@.take(ii + 1), v) {
                        let m = choose|m: int|
                            0 <= m < vs@.take(ii + 1).len() && (#[trigger] vs@.take(ii + 1)[m])@
                                == v;
                        if m < ii {
                            assert(vs@.take(ii)[m]@ == v);
                            assert(contains_view(vs@.take(ii), v));
                            assert(contains_view(r0, v));
                            let k = choose|k: int| 0 <= k < r0.len() && (#[trigger] r0[k])@ == v;
                            assert(r@[k]@ == v);
                            assert(contains_view(r@, v));
                        } else {
                            assert(vs@[ii]@ == v);
                            assert(r@[r@.len() - 1]@ == v);
                            assert(contains_view(r@, v));
                        }
                    }
                }
            }
        } else {
            proof {
                assert(r@.last()@ == vs@[ii]@);
                assert forall|v: Seq<char>|
                    contains_view(r@, v) <==> contains_view(vs@.take(ii + 1), v) by {
                    if contains_view(r@, v) {
                        assert(contains_view(vs@.take(ii), v));
                        let m = choose|m: int|
                            0 <= m < vs@.take(ii).len() && (#[trigger] vs@.take(ii)[m])@ == v;
                        assert(vs@.take(ii + 1)[m]@ == v);
                        assert(contains_view(vs@.take(ii + 1), v));
                    }
                    if contains_view(vs@.take(ii + 1), v) {
                        let m = choose|m: int|
                            0 <= m < vs@.take(ii + 1).len() && (#[trigger] vs@.take(ii + 1)[m])@
                                == v;
                        if m < ii {
                            assert(vs@.take(ii)[m]@ == v);
                            assert(contains_view(vs@.take(ii), v));
                            assert(contains_view(r@, v));
                        } else {
                            assert(vs@[ii]@ == v);
                            assert(r@[r@.len() - 1]@ == v);
                            assert(contains_view(r@, v));
                        }
                    }
                }
            }
        }
        i = i + 1;
    }
    proof {
        assert(vs@.take(n as int) =~= vs@);
    }
    r
}

/// The catalog's answer: candidate versions in descending order, or the
/// fixed fallback set when the listing yielded nothing — distinguishable
/// through the flag, since the fallback's freshness is unverified.
pub struct VersionCatalogResult {
    pub versions: Vec<String>,
    pub is_fallback: bool,
}

/// The catalog query produced no usable candidate.
pub open spec fn catalog_falls_back(listing: Option<Seq<char>>) -> bool {
    match listing {
        Some(s) => akmod_versions_in(s).len() == 0,
        None => true,
    }
}

/// Candidate driver versions from the package-listing output: the captured
/// version tokens, descending-sorted and deduplicated; exactly the fixed
/// fallback set, with the flag raised, when the listing is absent or yields
/// no capture.
pub fn get_available_nvidia_versions(listing: Option<&str>) -> (r: VersionCatalogResult)
    ensures
        r.is_fallback == catalog_falls_back(crate::detector::view_opt(listing)),
        r.is_fallback ==> {
            &&& r.versions@.len() == 3
            &&& r.versions@[0]@ == "565"@
            &&& r.versions@[1]@ == "550"@
            &&& r.versions@[2]@ == "535"@
        },
        !r.is_fallback ==> {
            &&& r.versions@.len() >= 1
            &&& sorted_desc(r.versions@)
            &&& adjacent_distinct(r.versions@)
            &&& forall|v: Seq<char>|
                contains_view(r.versions@, v) <==> akmod_versions_in(
                    listing->Some_0@,
                ).contains(v)
        },
{
    if let Some(s) = listing {
        let caps = extract_akmod_versions(s);
        if caps.len() > 0 {
            let mut sorted: Vec<String> = Vec::new();
            let n = caps.len();
            let mut i: usize = 0;
            let ghost capseq = akmod_versions_in(s@);
            while i < n
                invariant
                    0 <= i <= n,
                    n == caps@.len(),
                    n == capseq.len(),
                    forall|k: int| 0 <= k < n ==> (#[trigger] caps@[k]@) == capseq[k],
                    sorted_desc(sorted@),
                    forall|v: Seq<char>|
                        contains_view(sorted@, v) <==> capseq.take(i as int).contains(v),
                decreases n - i,
            {
                let item = caps[i].clone();
                proof {
                    assert(item@ == caps@[i as int]@);
                }
                sorted_insert(&mut sorted, item);
                proof {
                    assert forall|v: Seq<char>|
                        contains_view(sorted@, v) <==> capseq.take(i as int + 1).contains(v) by {
                        assert(capseq.take(i as int + 1).drop_last() =~= capseq.take(i as int));
                        if contains_view(sorted@, v) {
                            if capseq.take(i as int).contains(v) {
                                let m = choose|m: int|
                                    0 <= m < i as int && (#[trigger] capseq.take(i as int)[m])
                                        == v;
                                assert(capseq.take(i as int + 1)[m] == v);
                            } else {
                                assert(capseq.take(i as int + 1)[i as int] == v);
                            }
                        }
                        if capseq.take(i as int + 1).contains(v) {
                            let m = choose|m: int|
                                0 <= m <= i as int && (#[trigger] capseq.take(i as int + 1)[m])
                                    == v;
                            if m < i as int {
                                assert(capseq.take(i as int)[m] == v);
                            }
                        }
                    }
                }
                i = i + 1;
            }
            let deduped = dedup_adjacent(&sorted);
            proof {
                assert(capseq.take(n as int) =~= capseq);
                assert(capseq.contains(capseq[0]));
                assert(contains_view(deduped@, capseq[0]));
            }
            return VersionCatalogResult { versions: deduped, is_fallback: false };
        }
        proof {
            assert(akmod_versions_in(s@).len() == 0);
        }
    }
    let mut versions: Vec<String> = Vec::new();
    versions.push(String::from_str("565"));
    versions.push(String::from_str("550"));
    versions.push(String::from_str("535"));
    VersionCatalogResult { versions, is_fallback: true }
}

/// The version token that the changelog pattern finds in a delimiter line;
/// a function of the line alone.
pub uninterp spec fn changelog_version_token(line: Seq<char>) -> Option<Seq<char>>;

/// Relies on `regex::Regex::captures` with the fixed pattern
/// `(\d{3}\.\d{2}(?:\.\d+)?)|(\d{3})`: the full dotted version of the first
/// match when that alternative applies, else its bare 3-digit code, else
/// nothing. The pattern is constant, so the result depends on the line
/// alone.
#[verifier::external_body]
fn extract_version_token(line: &str) -> (r: Option<String>)
    ensures
        match r {
            Some(v) => changelog_version_token(line@) == Some(v@),
            None => changelog_version_token(line@) is None,
        },
{
    let re = match regex::Regex::new(r"(\d{3}\.\d{2}(?:\.\d+)?)|(\d{3})") {
        Ok(re) => re,
        Err(_) => return None,
    };
    match re.captures(line) {
        Some(caps) => match caps.get(1).or(caps.get(2)) {
            Some(m) => Some(m.as_str().to_string()),
            None => None,
        },
        None => None,
    }
}

/// `s` without its leading run of dashes.
pub open spec fn strip_dashes(s: Seq<char>) -> Seq<char>
    decreases s.len(),
{
    if s.len() > 0 && s[0] == '-' {
        strip_dashes(s.skip(1))
    } else {
        s
    }
}

/// Exec counterpart of `strip_dashes`.
fn strip_dashes_str<'a>(s: &'a str) -> (r: &'a str)
    ensures
        r@ == strip_dashes(s@),
{
    let len = s.unicode_len();
    let mut start: usize = 0;
    proof {
        assert(s@.skip(0) =~= s@);
    }
    while start < len && s.get_char(start) == '-'
        invariant
            0 <= start <= len,
            len == s@.len(),
            strip_dashes(s@) == strip_dashes(s@.skip(start as int)),
        decreases len - start,
    {
        proof {
            assert(s@.skip(start as int).skip(1) =~= s@.skip(start as int + 1));
        }
        start = start + 1;
    }
    proof {
        assert(strip_dashes(s@.skip(start as int)) == s@.skip(start as int));
        assert(s@.skip(start as int) =~= s@.subrange(start as int, len as int));
    }
    s.substring_char(start, len)
}

/// The rest of a space-joined list: a space before each further element.
pub open spec fn join_rest(ls: Seq<Seq<char>>) -> Seq<char>
    decreases ls.len(),
{
    if ls.len() == 0 {
        Seq::empty()
    } else {
        " "@ + ls[0] + join_rest(ls.skip(1))
    }
}

/// The elements of `ls` joined with single spaces.
pub open spec fn join_spaces(ls: Seq<Seq<char>>) -> Seq<char> {
    if ls.len() == 0 {
        Seq::empty()
    } else {
        ls[0] + join_rest(ls.skip(1))
    }
}

/// The views of a collected line list.
pub open spec fn views_of(ls: Seq<String>) -> Seq<Seq<char>> {
    ls.map_values(|l: String| l@)
}

/// The views of a collected notes list.
pub open spec fn notes_view(ns: Seq<(String, String)>) -> Seq<(Seq<char>, Seq<char>)> {
    ns.map_values(|p: (String, String)| (p.0@, p.1@))
}

/// Exec counterpart of `join_spaces`.
fn join_spaces_str(ls: &Vec<String>) -> (r: String)
    ensures
        r@ == join_spaces(views_of(ls@)),
{
    let ghost lv = views_of(ls@);
    let n = ls.len();
    if n == 0 {
        return String::new();
    }
    let mut out: String = ls[0].clone();
    let mut j: usize = 1;
    proof {
        assert(out@ == lv[0]);
        assert(lv.skip(0) =~= lv);
    }
    while j < n
        invariant
            1 <= j <= n,
            n == ls@.len(),
            lv == views_of(ls@),
            n == lv.len(),
            join_spaces(lv) == out@ + join_rest(lv.skip(j as int)),
        decreases n - j,
    {
        proof {
            assert(lv.skip(j as int)[0] == lv[j as int]);
            assert(lv.skip(j as int).skip(1) =~= lv.skip(j as int + 1));
        }
        out.append(" ");
        out.append(ls[j].as_str());
        j = j + 1;
    }
    proof {
        assert(join_rest(lv.skip(n as int)) =~= Seq::<char>::empty());
        assert(out@ =~= out@ + join_rest(lv.skip(n as int)));
    }
    out
}

/// An entry for `k` is already recorded.
pub open spec fn notes_has_key(ns: Seq<(Seq<char>, Seq<char>)>, k: Seq<char>) -> bool {
    exists|i: int| 0 <= i < ns.len() && (#[trigger] ns[i]).0 == k
}

/// Exec counterpart of `notes_has_key`.
fn notes_has_key_exec(notes: &Vec<(String, String)>, k: &str) -> (b: bool)
    ensures
        b == notes_has_key(notes_view(notes@), k@),
{
    let ghost nv = notes_view(notes@);
    let n = notes.len();
    let mut j: usize = 0;
    while j < n
        invariant
            0 <= j <= n,
            n == notes@.len(),
            nv == notes_view(notes@),
            forall|m: int| 0 <= m < j ==> (#[trigger] nv[m]).0 != k@,
        decreases n - j,
    {
        if str_eq(notes[j].0.as_str(), k) {
            proof {
                assert(nv[j as int].0 == k@);
            }
            return true;
        }
        proof {
            assert(nv[j as int].0 == notes@[j as int].0@);
        }
        j = j + 1;
    }
    proof {
        assert forall|m: int| 0 <= m < nv.len() implies (#[trigger] nv[m]).0 != k@ by {}
    }
    false
}

/// One fold step of the changelog scan: commit the pending entry if it is
/// complete and new.
pub open spec fn commit_note(
    acc: Seq<(Seq<char>, Seq<char>)>,
    cur_v: Seq<char>,
    cur_ls: Seq<Seq<char>>,
) -> Seq<(Seq<char>, Seq<char>)> {
    if cur_v.len() > 0 && cur_ls.len() > 0 && !notes_has_key(acc, cur_v) {
        acc.push((cur_v, join_spaces(cur_ls)))
    } else {
        acc
    }
}

/// The notes mined from the changelog lines: entries delimited by lines
/// starting with `*`, each keyed by its version token, with up to two
/// non-empty summary lines; the first entry for a key wins.
pub open spec fn collect_notes(
    ls: Seq<Seq<char>>,
    cur_v: Seq<char>,
    cur_ls: Seq<Seq<char>>,
    acc: Seq<(Seq<char>, Seq<char>)>,
) -> Seq<(Seq<char>, Seq<char>)>
    decreases ls.len(),
{
    if ls.len() == 0 {
        commit_note(acc, cur_v, cur_ls)
    } else {
        let t = trim_seq(ls[0]);
        if t.len() > 0 && t[0] == '*' {
            let nv = match changelog_version_token(t) {
                Some(v) => v,
                None => Seq::empty(),
            };
            collect_notes(ls.skip(1), nv, Seq::empty(), commit_note(acc, cur_v, cur_ls))
        } else if t.len() > 0 && cur_v.len() > 0 && cur_ls.len() < 2 {
            collect_notes(ls.skip(1), cur_v, cur_ls.push(trim_seq(strip_dashes(t))), acc)
        } else {
            collect_notes(ls.skip(1), cur_v, cur_ls, acc)
        }
    }
}

/// The notes derived from an optional changelog query output.
pub open spec fn notes_of(o: Option<Seq<char>>) -> Seq<(Seq<char>, Seq<char>)> {
    match o {
        Some(c) => collect_notes(lines_seq(c), Seq::empty(), Seq::empty(), Seq::empty()),
        None => Seq::empty(),
    }
}

/// Exec commit of the pending entry.
fn commit_note_exec(notes: &mut Vec<(String, String)>, cur_v: &String, cur_ls: &Vec<String>)
    ensures
        notes_view(final(notes)@) == commit_note(notes_view(old(notes)@), cur_v@, views_of(cur_ls@)),
{
    let ghost n0 = notes_view(notes@);
    if cur_v.as_str().unicode_len() > 0 && cur_ls.len() > 0 {
        if !notes_has_key_exec(notes, cur_v.as_str()) {
            let joined = join_spaces_str(cur_ls);
            notes.push((cur_v.clone(), joined));
            proof {
                assert(notes_view(notes@) =~= n0.push((cur_v@, join_spaces(views_of(cur_ls@)))));
            }
            return ;
        }
    }
    proof {
        assert(views_of(cur_ls@).len() == cur_ls@.len());
        assert(notes_view(notes@) =~= n0);
    }
}

/// Parse the changelog query output into the ordered notes list.
pub fn parse_changelog_notes(changelog: &str) -> (notes: Vec<(String, String)>)
    ensures
        notes_view(notes@) == collect_notes(
            lines_seq(changelog@),
            Seq::empty(),
            Seq::empty(),
            Seq::empty(),
        ),
{
    let ls = split_lines(changelog);
    let ghost dv = ls.deep_view();
    let mut notes: Vec<(String, String)> = Vec::new();
    let mut cur_v: String = String::new();
    let mut cur_ls: Vec<String> = Vec::new();
    let n = ls.len();
    let mut i: usize = 0;
    proof {
        assert(dv.skip(0) =~= dv);
        assert(views_of(cur_ls@) =~= Seq::<Seq<char>>::empty());
        assert(notes_view(notes@) =~= Seq::<(Seq<char>, Seq<char>)>::empty());
    }
    while i < n
        invariant
            0 <= i <= n,
            n == ls@.len(),
            dv == ls.deep_view(),
            dv == lines_seq(changelog@),
            collect_notes(dv, Seq::empty(), Seq::empty(), Seq::empty()) == collect_notes(
                dv.skip(i as int),
                cur_v@,
                views_of(cur_ls@),
                notes_view(notes@),
            ),
        decreases n - i,
    {
        proof {
            assert(dv.skip(i as int)[0] == dv[i as int]);
            assert(dv.skip(i as int).skip(1) =~= dv.skip(i as int + 1));
        }
        let line = ls[i].as_str();
        let t = trim_str(line);
        let tlen = t.unicode_len();
        if tlen > 0 && t.get_char(0) == '*' {
            commit_note_exec(&mut notes, &cur_v, &cur_ls);
            cur_v = match extract_version_token(t) {
                Some(v) => v,
                None => String::new(),
            };
            cur_ls = Vec::new();
            proof {
                assert(views_of(cur_ls@) =~= Seq::<Seq<char>>::empty());
            }
        } else if tlen > 0 && cur_v.as_str().unicode_len() > 0 && cur_ls.len() < 2 {
            let ghost lv0 = views_of(cur_ls@);
            let piece = trim_str(strip_dashes_str(t));
            cur_ls.push(piece.to_owned());
            proof {
                assert(views_of(cur_ls@) =~= lv0.push(trim_seq(strip_dashes(trim_seq(
                    dv[i as int],
                )))));
            }
        }
        i = i + 1;
    }
    proof {
        assert(dv.skip(n as int) =~= Seq::<Seq<char>>::empty());
    }
    commit_note_exec(&mut notes, &cur_v, &cur_ls);
    notes
}

/// One catalog version together with its short changelog text.
#[derive(Debug, Clone)]
pub struct VersionEntry {
    pub version: String,
    pub changelog_summary: String,
}

/// The summary correlated to `version`: the first note whose key and the
/// version are prefix-compatible in either direction, else the fixed
/// no-details text.
pub open spec fn summary_for(ns: Seq<(Seq<char>, Seq<char>)>, version: Seq<char>) -> Seq<char>
    decreases ns.len(),
{
    if ns.len() == 0 {
        "Official repository metadata checked. Detailed notes unavailable."@
    } else if ns[0].0.is_prefix_of(version) || version.is_prefix_of(ns[0].0) {
        ns[0].1
    } else {
        summary_for(ns.skip(1), version)
    }
}

/// Pair the first eight catalog versions with their correlated summaries.
pub fn correlate_versions_with_notes(versions: &Vec<String>, notes: &Vec<(String, String)>) -> (r:
    Vec<VersionEntry>)
    ensures
        r@.len() == if versions@.len() < 8 {
            versions@.len() as int
        } else {
            8int
        },
        forall|i: int|
            0 <= i < r@.len() ==> (#[trigger] r@[i]).version@ == versions@[i]@
                && r@[i].changelog_summary@ == summary_for(notes_view(notes@), versions@[i]@),
{
    let ghost nv = notes_view(notes@);
    let count = if versions.len() < 8 {
        versions.len()
    } else {
        8
    };
    let mut r: Vec<VersionEntry> = Vec::new();
    let mut i: usize = 0;
    while i < count
        invariant
            0 <= i <= count,
            count == if versions@.len() < 8 {
                versions@.len() as int
            } else {
                8int
            },
            count <= versions@.len(),
            nv == notes_view(notes@),
            r@.len() == i,
            forall|k: int|
                0 <= k < i ==> (#[trigger] r@[k]).version@ == versions@[k]@
                    && r@[k].changelog_summary@ == summary_for(nv, versions@[k]@),
        decreases count - i,
    {
        let version = versions[i].clone();
        let summary = summary_lookup(notes, version.as_str());
        r.push(VersionEntry { version, changelog_summary: summary });
        i = i + 1;
    }
    r
}

/// Exec counterpart of `summary_for`.
fn summary_lookup(notes: &Vec<(String, String)>, version: &str) -> (r: String)
    ensures
        r@ == summary_for(notes_view(notes@), version@),
{
    let ghost nv = notes_view(notes@);
    let n = notes.len();
    let mut j: usize = 0;
    proof {
        assert(nv.skip(0) =~= nv);
    }
    while j < n
        invariant
            0 <= j <= n,
            n == notes@.len(),
            nv == notes_view(notes@),
            summary_for(nv, version@) == summary_for(nv.skip(j as int), version@),
        decreases n - j,
    {
        proof {
            assert(nv.skip(j as int)[0] == nv[j as int]);
            assert(nv.skip(j as int).skip(1) =~= nv.skip(j as int + 1));
        }
        let k = notes[j].0.as_str();
        if str_starts_with(version, k) || str_starts_with(k, version) {
            return notes[j].1.clone();
        }
        j = j + 1;
    }
    proof {
        assert(nv.skip(n as int) =~= Seq::<(Seq<char>, Seq<char>)>::empty());
    }
    String::from_str("Official repository metadata checked. Detailed notes unavailable.")
}

/// The catalog's first eight versions, each with the changelog summary
/// correlated by prefix compatibility; the fallback set, with the fixed
/// no-details text where nothing correlates, when the listing yields
/// nothing.
pub fn get_official_nvidia_versions_with_changes(
    listing: Option<&str>,
    changelog: Option<&str>,
) -> (r: Vec<VersionEntry>)
    ensures
        1 <= r@.len() <= 8,
        forall|i: int|
            0 <= i < r@.len() ==> (#[trigger] r@[i]).changelog_summary@ == summary_for(
                notes_of(crate::detector::view_opt(changelog)),
                r@[i].version@,
            ),
        catalog_falls_back(crate::detector::view_opt(listing)) ==> {
            &&& r@.len() == 3
            &&& r@[0].version@ == "565"@
            &&& r@[1].version@ == "550"@
            &&& r@[2].version@ == "535"@
        },
        !catalog_falls_back(crate::detector::view_opt(listing)) ==> forall|i: int|
            0 <= i < r@.len() ==> akmod_versions_in(listing->Some_0@).contains(
                (#[trigger] r@[i]).version@,
            ),
        !catalog_falls_back(crate::detector::view_opt(listing)) ==> forall|i: int|
            0 <= i < r@.len() - 1 ==> cmp_versions((#[trigger] r@[i]).version@, r@[i + 1].version@)
                >= 0,
        !catalog_falls_back(crate::detector::view_opt(listing)) ==> forall|i: int|
            0 <= i < r@.len() - 1 ==> (#[trigger] r@[i]).version@ != r@[i + 1].version@,
{
    let cat = get_available_nvidia_versions(listing);
    let notes = match changelog {
        Some(c) => parse_changelog_notes(c),
        None => Vec::new(),
    };
    proof {
        if changelog is None {
            assert(notes_view(Seq::<(String, String)>::empty()) =~= Seq::<
                (Seq<char>, Seq<char>),
            >::empty());
        }
        if !cat.is_fallback {
            assert forall|i: int| 0 <= i < cat.versions@.len() implies akmod_versions_in(
                listing->Some_0@,
            ).contains(#[trigger] cat.versions@[i]@) by {
                assert(contains_view(cat.versions@, cat.versions@[i]@));
            }
        }
    }
    let r = correlate_versions_with_notes(&cat.versions, &notes);
    proof {
        if cat.is_fallback {
            assert(r@.len() == 3);
        }
    }
    r
}

} // verus!
