//! The module sync generator: from an observed directory layout to the
//! derived manifest texts.
//!
//! The surrounding program reads the directories and writes the files;
//! everything in between — cleaning the ordering prefix off a directory
//! name, sorting, and the exact text of both manifest levels — is a pure
//! function verified here.

use vstd::prelude::*;

use crate::locator::names_model;
use crate::text;

verus! {

/// The first position of `c` in `s`, or -1 when `c` does not occur.
pub open spec fn first_pos(s: Seq<char>, c: char) -> int
    decreases s.len(),
{
    if s.len() == 0 {
        -1
    } else if s[0] == c {
        0
    } else if first_pos(s.drop_first(), c) == -1 {
        -1
    } else {
        first_pos(s.drop_first(), c) + 1
    }
}

/// `first_pos` finds the first occurrence, or reports that there is none.
pub proof fn lemma_first_pos(s: Seq<char>, c: char)
    ensures
        first_pos(s, c) == -1 ==> forall|j: int| 0 <= j < s.len() ==> s[j] != c,
        first_pos(s, c) >= 0 ==> 0 <= first_pos(s, c) < s.len() && s[first_pos(s, c)] == c,
        first_pos(s, c) >= 0 ==> forall|j: int| 0 <= j < first_pos(s, c) ==> s[j] != c,
        -1 <= first_pos(s, c) < s.len(),
    decreases s.len(),
{
    if s.len() > 0 && s[0] != c {
        let d = s.drop_first();
        lemma_first_pos(d, c);
        if first_pos(s, c) == -1 {
            assert forall|j: int| 0 <= j < s.len() implies s[j] != c by {
                if j > 0 {
                    assert(d[j - 1] == s[j]);
                }
            }
        } else {
            let p = first_pos(s, c);
            assert(first_pos(d, c) == p - 1);
            assert forall|j: int| 0 <= j < p implies s[j] != c by {
                if j > 0 {
                    assert(d[j - 1] == s[j]);
                }
            }
        }
    }
}

/// An occurrence with nothing equal before it is the first position.
proof fn lemma_first_pos_at(s: Seq<char>, c: char, i: int)
    requires
        0 <= i < s.len(),
        s[i] == c,
        forall|j: int| 0 <= j < i ==> s[j] != c,
    ensures
        first_pos(s, c) == i,
    decreases s.len(),
{
    if i > 0 {
        lemma_first_pos_at(s.drop_first(), c, i - 1);
    }
}

/// The logical module name of an exercise directory: when everything
/// before the first underscore is digits — an empty prefix counts — that
/// prefix and the underscore are stripped; any other name is kept
/// verbatim.
pub open spec fn clean_name(d: Seq<char>) -> Seq<char> {
    let u = first_pos(d, '_');
    if u >= 0 && text::all_digits(d.take(u)) {
        d.skip(u + 1)
    } else {
        d
    }
}

/// The logical module name of a directory, as executable code.
pub fn clean_module_name(dir: &str) -> (r: String)
    ensures
        r@ == clean_name(dir@),
{
    proof {
        lemma_first_pos(dir@, '_');
    }
    let n = dir.unicode_len();
    let mut i: usize = 0;
    while i < n
        invariant
            0 <= i <= n,
            n == dir@.len(),
            forall|j: int| 0 <= j < i ==> dir@[j] != '_',
        decreases n - i,
    {
        if dir.get_char(i) == '_' {
            proof {
                lemma_first_pos_at(dir@, '_', i as int);
            }
            let mut k: usize = 0;
            while k < i
                invariant
                    0 <= k <= i < n,
                    n == dir@.len(),
                    first_pos(dir@, '_') == i as int,
                    forall|j: int| 0 <= j < k ==> text::is_digit(dir@[j]),
                decreases i - k,
            {
                if !text::is_digit_char(dir.get_char(k)) {
                    proof {
                        assert(dir@.take(i as int)[k as int] == dir@[k as int]);
                        assert(!text::all_digits(dir@.take(i as int)));
                    }
                    return dir.to_owned();
                }
                k += 1;
            }
            proof {
                assert(forall|j: int|
                    0 <= j < i ==> #[trigger] dir@.take(i as int)[j] == dir@[j]);
                assert(text::all_digits(dir@.take(i as int)));
            }
            let r = dir.substring_char(i + 1, n).to_owned();
            proof {
                assert(r@ =~= dir@.skip(i + 1));
            }
            return r;
        }
        i += 1;
    }
    dir.to_owned()
}

/// Insert a name into a sorted list of names, keeping it sorted.
pub open spec fn insert_sorted(x: Seq<char>, ns: Seq<Seq<char>>) -> Seq<Seq<char>>
    decreases ns.len(),
{
    if ns.len() == 0 {
        seq![x]
    } else if text::lex_le(x, ns[0]) {
        seq![x] + ns
    } else {
        seq![ns[0]] + insert_sorted(x, ns.drop_first())
    }
}

/// The names in lexicographic order.
pub open spec fn sort_spec(ns: Seq<Seq<char>>) -> Seq<Seq<char>>
    decreases ns.len(),
{
    if ns.len() == 0 {
        Seq::empty()
    } else {
        insert_sorted(ns[0], sort_spec(ns.drop_first()))
    }
}

/// The names with the manifest's own logical name removed.
pub open spec fn non_manifest(ns: Seq<Seq<char>>) -> Seq<Seq<char>>
    decreases ns.len(),
{
    if ns.len() == 0 {
        Seq::empty()
    } else if ns.last() == "mod"@ {
        non_manifest(ns.drop_last())
    } else {
        non_manifest(ns.drop_last()).push(ns.last())
    }
}

/// Insert a name into a list of names at its place, as executable code.
fn insert_sorted_exec(x: String, ns: Vec<String>) -> (r: Vec<String>)
    ensures
        names_model(r@) == insert_sorted(x@, names_model(ns@)),
    decreases ns@.len(),
{
    let mut ns = ns;
    if ns.len() == 0 {
        let mut v: Vec<String> = Vec::new();
        v.push(x);
        proof {
            assert(names_model(v@) =~= seq![x@]);
            assert(names_model(ns@) =~= Seq::<Seq<char>>::empty());
        }
        v
    } else if text::str_le(x.as_str(), ns[0].as_str()) {
        let ghost ns0 = names_model(ns@);
        ns.insert(0, x);
        proof {
            assert(names_model(ns@) =~= seq![x@] + ns0);
        }
        ns
    } else {
        let ghost ns0 = names_model(ns@);
        let h = ns.remove(0);
        proof {
            assert(names_model(ns@) =~= ns0.drop_first());
        }
        let mut r = insert_sorted_exec(x, ns);
        r.insert(0, h);
        proof {
            assert(names_model(r@) =~= seq![ns0[0]] + insert_sorted(x@, ns0.drop_first()));
        }
        r
    }
}

/// Sort names lexicographically, as executable code.
pub fn sort_names(ns: Vec<String>) -> (r: Vec<String>)
    ensures
        names_model(r@) == sort_spec(names_model(ns@)),
    decreases ns@.len(),
{
    let mut ns = ns;
    if ns.len() == 0 {
        proof {
            assert(names_model(ns@) =~= Seq::<Seq<char>>::empty());
            assert(sort_spec(names_model(ns@)) =~= Seq::<Seq<char>>::empty());
        }
        ns
    } else {
        let ghost ns0 = names_model(ns@);
        let h = ns.remove(0);
        proof {
            assert(names_model(ns@) =~= ns0.drop_first());
        }
        let rest = sort_names(ns);
        insert_sorted_exec(h, rest)
    }
}

/// Inserting into a sorted list keeps it sorted.
proof fn lemma_insert_sorted_sorted(x: Seq<char>, ns: Seq<Seq<char>>)
    requires
        sorted_lex(ns),
    ensures
        sorted_lex(insert_sorted(x, ns)),
        forall|y: Seq<char>|
            insert_sorted(x, ns).contains(y) ==> y == x || ns.contains(y),
    decreases ns.len(),
{
    if ns.len() == 0 {
    } else if text::lex_le(x, ns[0]) {
        let r = seq![x] + ns;
        assert forall|i: int, j: int| 0 <= i < j < r.len() implies text::lex_le(r[i], r[j]) by {
            if i == 0 {
                if j == 1 {
                } else {
                    assert(text::lex_le(ns[0], ns[j - 1]));
                    lemma_lex_le_trans(x, ns[0], ns[j - 1]);
                }
            }
        }
        assert forall|y: Seq<char>| r.contains(y) implies y == x || ns.contains(y) by {
            let i = choose|i: int| 0 <= i < r.len() && r[i] == y;
            if i > 0 {
                assert(ns[i - 1] == y);
            }
        }
    } else {
        let d = ns.drop_first();
        assert(sorted_lex(d)) by {
            assert(forall|i: int, j: int|
                0 <= i < j < d.len() ==> text::lex_le(#[trigger] d[i], #[trigger] d[j]));
        }
        lemma_insert_sorted_sorted(x, d);
        let t = insert_sorted(x, d);
        let r = seq![ns[0]] + t;
        assert(!text::lex_le(x, ns[0]));
        assert(text::lex_le(ns[0], x)) by {
            lemma_lex_total(ns[0], x);
        }
        assert forall|i: int, j: int| 0 <= i < j < r.len() implies text::lex_le(r[i], r[j]) by {
            if i == 0 {
                let y = r[j];
                assert(t.contains(t[j - 1]));
                if t[j - 1] == x {
                } else {
                    assert(d.contains(t[j - 1]));
                    let k = choose|k: int| 0 <= k < d.len() && d[k] == t[j - 1];
                    assert(text::lex_le(ns[0], ns[k + 1]));
                }
            } else {
                assert(text::lex_le(t[i - 1], t[j - 1]));
            }
        }
        assert forall|y: Seq<char>| r.contains(y) implies y == x || ns.contains(y) by {
            let i = choose|i: int| 0 <= i < r.len() && r[i] == y;
            if i == 0 {
                assert(ns[0] == y);
            } else {
                assert(t.contains(y));
                if y != x {
                    assert(d.contains(y));
                    let k = choose|k: int| 0 <= k < d.len() && d[k] == y;
                    assert(ns[k + 1] == y);
                }
            }
        }
    }
}

/// The order is total: two names always compare one way or the other.
pub proof fn lemma_lex_total(a: Seq<char>, b: Seq<char>)
    ensures
        text::lex_le(a, b) || text::lex_le(b, a),
    decreases a.len(),
{
    if a.len() > 0 && b.len() > 0 && a[0] == b[0] {
        lemma_lex_total(a.drop_first(), b.drop_first());
    }
}

/// The order is transitive.
pub proof fn lemma_lex_le_trans(a: Seq<char>, b: Seq<char>, c: Seq<char>)
    requires
        text::lex_le(a, b),
        text::lex_le(b, c),
    ensures
        text::lex_le(a, c),
    decreases a.len(),
{
    if a.len() > 0 && b.len() > 0 && c.len() > 0 {
        if a[0] == b[0] && b[0] == c[0] {
            lemma_lex_le_trans(a.drop_first(), b.drop_first(), c.drop_first());
        }
    }
}

/// The models of a vector of name pairs.
pub open spec fn pairs_model(v: Seq<(String, String)>) -> Seq<(Seq<char>, Seq<char>)> {
    Seq::new(v.len(), |i: int| (v[i].0@, v[i].1@))
}

/// Order on (clean name, raw directory name) pairs: by clean name, ties
/// by raw name.
pub open spec fn pair_le(x: (Seq<char>, Seq<char>), y: (Seq<char>, Seq<char>)) -> bool {
    if x.0 == y.0 {
        text::lex_le(x.1, y.1)
    } else {
        text::lex_le(x.0, y.0)
    }
}

/// Insert a pair into a sorted list of pairs, keeping it sorted.
pub open spec fn insert_sorted_pair(
    x: (Seq<char>, Seq<char>),
    ps: Seq<(Seq<char>, Seq<char>)>,
) -> Seq<(Seq<char>, Seq<char>)>
    decreases ps.len(),
{
    if ps.len() == 0 {
        seq![x]
    } else if pair_le(x, ps[0]) {
        seq![x] + ps
    } else {
        seq![ps[0]] + insert_sorted_pair(x, ps.drop_first())
    }
}

/// The pairs in order.
pub open spec fn sort_pairs_spec(ps: Seq<(Seq<char>, Seq<char>)>) -> Seq<(Seq<char>, Seq<char>)>
    decreases ps.len(),
{
    if ps.len() == 0 {
        Seq::empty()
    } else {
        insert_sorted_pair(ps[0], sort_pairs_spec(ps.drop_first()))
    }
}

/// Pair comparison, as executable code.
fn pair_le_exec(x: &(String, String), y: &(String, String)) -> (r: bool)
    ensures
        r == pair_le((x.0@, x.1@), (y.0@, y.1@)),
{
    if text::str_eq(x.0.as_str(), y.0.as_str()) {
        text::str_le(x.1.as_str(), y.1.as_str())
    } else {
        text::str_le(x.0.as_str(), y.0.as_str())
    }
}

/// Insert a pair at its place, as executable code.
fn insert_sorted_pair_exec(x: (String, String), ps: Vec<(String, String)>) -> (r: Vec<
    (String, String),
>)
    ensures
        pairs_model(r@) == insert_sorted_pair((x.0@, x.1@), pairs_model(ps@)),
    decreases ps@.len(),
{
    let mut ps = ps;
    if ps.len() == 0 {
        let ghost xm = (x.0@, x.1@);
        let mut v: Vec<(String, String)> = Vec::new();
        v.push(x);
        proof {
            assert(pairs_model(v@) =~= seq![xm]);
            assert(pairs_model(ps@) =~= Seq::<(Seq<char>, Seq<char>)>::empty());
        }
        v
    } else if pair_le_exec(&x, &ps[0]) {
        let ghost ps0 = pairs_model(ps@);
        let ghost xm = (x.0@, x.1@);
        ps.insert(0, x);
        proof {
            assert(pairs_model(ps@) =~= seq![xm] + ps0);
        }
        ps
    } else {
        let ghost ps0 = pairs_model(ps@);
        let h = ps.remove(0);
        proof {
            assert(pairs_model(ps@) =~= ps0.drop_first());
        }
        let mut r = insert_sorted_pair_exec(x, ps);
        r.insert(0, h);
        proof {
            assert(pairs_model(r@) =~= seq![ps0[0]] + insert_sorted_pair(
                (x.0@, x.1@),
                ps0.drop_first(),
            ));
        }
        r
    }
}

/// Sort pairs by clean name then raw name, as executable code.
pub fn sort_pairs(ps: Vec<(String, String)>) -> (r: Vec<(String, String)>)
    ensures
        pairs_model(r@) == sort_pairs_spec(pairs_model(ps@)),
    decreases ps@.len(),
{
    let mut ps = ps;
    if ps.len() == 0 {
        proof {
            assert(pairs_model(ps@) =~= Seq::<(Seq<char>, Seq<char>)>::empty());
            assert(sort_pairs_spec(pairs_model(ps@)) =~= Seq::<(Seq<char>, Seq<char>)>::empty());
        }
        ps
    } else {
        let ghost ps0 = pairs_model(ps@);
        let h = ps.remove(0);
        proof {
            assert(pairs_model(ps@) =~= ps0.drop_first());
        }
        let rest = sort_pairs(ps);
        insert_sorted_pair_exec(h, rest)
    }
}

/// The header line of a per-directory manifest.
pub open spec fn module_header() -> Seq<char> {
    "// Auto-generated by `cargo run -- sync`\n\n"@
}

/// One membership declaration of a per-directory manifest.
pub open spec fn mod_line(n: Seq<char>) -> Seq<char> {
    "pub mod "@ + n + ";\n"@
}

/// The membership declarations, in list order.
pub open spec fn mod_lines(ns: Seq<Seq<char>>) -> Seq<char>
    decreases ns.len(),
{
    if ns.len() == 0 {
        Seq::empty()
    } else {
        mod_line(ns[0]) + mod_lines(ns.drop_first())
    }
}

/// The whole text of a per-directory manifest over the given names.
pub open spec fn module_manifest_text(ns: Seq<Seq<char>>) -> Seq<char> {
    module_header() + mod_lines(ns)
}

/// Append the membership declarations from index `i` on.
fn push_mod_lines(out: &mut String, v: &Vec<String>, i: usize)
    requires
        i <= v.len(),
    ensures
        final(out)@ == old(out)@ + mod_lines(names_model(v@).skip(i as int)),
    decreases v.len() - i,
{
    if i == v.len() {
        proof {
            assert(names_model(v@).skip(i as int).len() == 0);
            assert(old(out)@ + mod_lines(names_model(v@).skip(i as int)) =~= old(out)@);
        }
        return ;
    }
    let ghost ns = names_model(v@).skip(i as int);
    out.append("pub mod ");
    out.append(v[i].as_str());
    out.append(";\n");
    push_mod_lines(out, v, i + 1);
    proof {
        assert(names_model(v@).skip((i + 1) as int) =~= ns.drop_first());
        assert(ns[0] == names_model(v@)[i as int]);
        assert(final(out)@ =~= old(out)@ + mod_lines(ns));
    }
}

/// The per-directory manifest over the handed-in file stems: the header,
/// then one membership declaration per stem other than the manifest's own
/// logical name, sorted lexicographically.
pub fn module_manifest(stems: &Vec<String>) -> (r: String)
    ensures
        r@ == module_manifest_text(sort_spec(non_manifest(names_model(stems@)))),
{
    let n = stems.len();
    let mut kept: Vec<String> = Vec::new();
    let mut i: usize = 0;
    while i < n
        invariant
            0 <= i <= n,
            n == stems@.len(),
            names_model(kept@) == non_manifest(names_model(stems@).take(i as int)),
        decreases n - i,
    {
        if !text::str_eq(stems[i].as_str(), "mod") {
            kept.push(stems[i].clone());
        }
        i += 1;
        proof {
            let t = names_model(stems@).take(i as int);
            assert(t.drop_last() =~= names_model(stems@).take(i - 1));
            assert(t.last() == names_model(stems@)[i - 1]);
            assert(names_model(kept@) =~= non_manifest(t));
        }
    }
    proof {
        assert(names_model(stems@).take(n as int) =~= names_model(stems@));
    }
    let sorted = sort_names(kept);
    let mut out = String::from_str("// Auto-generated by `cargo run -- sync`\n\n");
    push_mod_lines(&mut out, &sorted, 0);
    proof {
        assert(names_model(sorted@).skip(0) =~= names_model(sorted@));
    }
    out
}

/// The header line of the root manifest.
pub open spec fn root_header() -> Seq<char> {
    "// Auto-generated by `cargo run -- sync`. Do not edit manually.\n\n"@
}

/// The path-redirect declaration pointing a clean module name at its raw
/// directory.
pub open spec fn path_line(raw: Seq<char>) -> Seq<char> {
    "#["@ + "path = \""@ + raw + "/mod.rs\"]\n"@
}

/// One root-manifest entry: a redirect when the clean name differs from
/// the raw directory name, then the membership declaration.
pub open spec fn root_entry_text(p: (Seq<char>, Seq<char>)) -> Seq<char> {
    if p.0 != p.1 {
        path_line(p.1) + "pub mod "@ + p.0 + ";\n\n"@
    } else {
        "pub mod "@ + p.0 + ";\n\n"@
    }
}

/// The root-manifest entries, in list order.
pub open spec fn root_entries_text(ps: Seq<(Seq<char>, Seq<char>)>) -> Seq<char>
    decreases ps.len(),
{
    if ps.len() == 0 {
        Seq::empty()
    } else {
        root_entry_text(ps[0]) + root_entries_text(ps.drop_first())
    }
}

/// The whole text of the root manifest over the given pairs.
pub open spec fn root_manifest_text(ps: Seq<(Seq<char>, Seq<char>)>) -> Seq<char> {
    root_header() + root_entries_text(ps)
}

/// Append the root-manifest entries from index `i` on.
fn push_root_entries(out: &mut String, v: &Vec<(String, String)>, i: usize)
    requires
        i <= v.len(),
    ensures
        final(out)@ == old(out)@ + root_entries_text(pairs_model(v@).skip(i as int)),
    decreases v.len() - i,
{
    if i == v.len() {
        proof {
            assert(pairs_model(v@).skip(i as int).len() == 0);
            assert(old(out)@ + root_entries_text(pairs_model(v@).skip(i as int)) =~= old(out)@);
        }
        return ;
    }
    let ghost ps = pairs_model(v@).skip(i as int);
    if !text::str_eq(v[i].0.as_str(), v[i].1.as_str()) {
        out.append("#[");
        out.append("path = \"");
        out.append(v[i].1.as_str());
        out.append("/mod.rs\"]\n");
    }
    out.append("pub mod ");
    out.append(v[i].0.as_str());
    out.append(";\n\n");
    push_root_entries(out, v, i + 1);
    proof {
        assert(pairs_model(v@).skip((i + 1) as int) =~= ps.drop_first());
        assert(ps[0] == pairs_model(v@)[i as int]);
        assert(final(out)@ =~= old(out)@ + root_entries_text(ps));
    }
}

/// The root manifest over the handed-in (clean name, raw directory) pairs:
/// the header, then, pair by pair in sorted order, a path redirect
/// whenever the clean name differs from the raw one, and a membership
/// declaration under the clean name.
pub fn root_manifest(modules: Vec<(String, String)>) -> (r: String)
    ensures
        r@ == root_manifest_text(sort_pairs_spec(pairs_model(modules@))),
{
    let sorted = sort_pairs(modules);
    let mut out = String::from_str(
        "// Auto-generated by `cargo run -- sync`. Do not edit manually.\n\n",
    );
    push_root_entries(&mut out, &sorted, 0);
    proof {
        assert(pairs_model(sorted@).skip(0) =~= pairs_model(sorted@));
    }
    out
}

/// All names in lexicographic order.
pub open spec fn sorted_lex(ns: Seq<Seq<char>>) -> bool {
    forall|i: int, j: int| 0 <= i < j < ns.len() ==> text::lex_le(#[trigger] ns[i], #[trigger] ns[j])
}

/// The sorted names are sorted: one half of the ordering law.
pub proof fn lemma_sort_spec_sorted(ns: Seq<Seq<char>>)
    ensures
        sorted_lex(sort_spec(ns)),
    decreases ns.len(),
{
    if ns.len() > 0 {
        lemma_sort_spec_sorted(ns.drop_first());
        lemma_insert_sorted_sorted(ns[0], sort_spec(ns.drop_first()));
    }
}

/// Inserting a name adds exactly that name to the collection.
proof fn lemma_insert_sorted_multiset(x: Seq<char>, ns: Seq<Seq<char>>)
    ensures
        insert_sorted(x, ns).to_multiset() == ns.to_multiset().insert(x),
    decreases ns.len(),
{
    broadcast use vstd::multiset::group_multiset_axioms;

    if ns.len() == 0 {
        assert(insert_sorted(x, ns) =~= ns.insert(0, x));
        vstd::seq_lib::to_multiset_insert(ns, 0, x);
    } else if text::lex_le(x, ns[0]) {
        assert(insert_sorted(x, ns) =~= ns.insert(0, x));
        vstd::seq_lib::to_multiset_insert(ns, 0, x);
    } else {
        let d = ns.drop_first();
        lemma_insert_sorted_multiset(x, d);
        let t = insert_sorted(x, d);
        assert(insert_sorted(x, ns) =~= t.insert(0, ns[0]));
        vstd::seq_lib::to_multiset_insert(t, 0, ns[0]);
        assert(ns =~= d.insert(0, ns[0]));
        vstd::seq_lib::to_multiset_insert(d, 0, ns[0]);
        assert(d.to_multiset().insert(x).insert(ns[0]) =~= d.to_multiset().insert(
            ns[0],
        ).insert(x));
    }
}

/// Sorting only reorders: the other half of the ordering law. Together
/// with sortedness this pins the sorted list completely.
pub proof fn lemma_sort_spec_permutes(ns: Seq<Seq<char>>)
    ensures
        sort_spec(ns).to_multiset() == ns.to_multiset(),
    decreases ns.len(),
{
    broadcast use vstd::multiset::group_multiset_axioms;

    if ns.len() == 0 {
        assert(ns =~= Seq::<Seq<char>>::empty());
        assert(sort_spec(ns) =~= ns);
    } else {
        let d = ns.drop_first();
        lemma_sort_spec_permutes(d);
        lemma_insert_sorted_multiset(ns[0], sort_spec(d));
        assert(ns =~= d.insert(0, ns[0]));
        vstd::seq_lib::to_multiset_insert(d, 0, ns[0]);
    }
}

} // verus!
