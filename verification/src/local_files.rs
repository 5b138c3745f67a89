//! Which local files are brought to a host, and in which order.

use vstd::prelude::*;
use crate::order::{
    components, lemma_path_less_irreflexive, lemma_path_less_total, lemma_path_less_transitive, path_less, rank_paths,
    Rank,
};
use crate::text::{
    begins_with, first_index, law_only_the_run_at_the_end_is_trimmed, law_pieces_of_parts, lemma_first_index_bounds,
    pieces, replace_char, replaced, same_text, split_at_char, trim_end_char, trimmed_end, views,
};

verus! {

/// What was found below a directory.
#[derive(Debug, PartialEq)]
pub struct LocalEntry {
    /// The bytes of the components of its path below the directory.
    pub components: Vec<Vec<u8>>,
    /// That path as text.
    pub relative: String,
    /// Whether it is a regular file.
    pub is_file: bool,
}

/// The names of the directories and files that are never brought to a host.
pub open spec fn default_excludes() -> Seq<Seq<char>> {
    seq![".git"@, "models"@, "data"@, "outputs"@, "logs"@, "target"@, "__pycache__"@]
}

/// The name under which a host knows a local path.
pub open spec fn manifest_key(relative: Seq<char>) -> Seq<char> {
    replaced(relative, '\\', '/')
}

/// The name under which a host knows a local path.
pub fn manifest_name(relative: &str) -> (r: String)
    ensures
        r@ == manifest_key(relative@),
{
    replace_char(relative, '\\', '/')
}

/// Whether a component of a path is never brought to a host.
pub open spec fn excluded_by_default(key: Seq<char>) -> bool {
    exists|i: int|
        0 <= i < pieces(key, '/').len() && default_excludes().contains(#[trigger] pieces(key, '/')[i])
}

/// Whether a path begins with one of `additional`, slashes at whose end do not
/// count.
pub open spec fn excluded_by(key: Seq<char>, additional: Seq<Seq<char>>) -> bool {
    exists|i: int| 0 <= i < additional.len() && trimmed_end(#[trigger] additional[i], '/').is_prefix_of(key)
}

/// Whether an entry is brought to a host.
pub open spec fn kept(entry: LocalEntry, additional: Seq<Seq<char>>) -> bool {
    let key = manifest_key(entry.relative@);
    entry.is_file && !excluded_by_default(key) && !excluded_by(key, additional)
}

fn is_default_exclude(name: &str) -> (r: bool)
    ensures
        r == default_excludes().contains(name@),
{
    let found = same_text(name, ".git") || same_text(name, "models") || same_text(name, "data") || same_text(
        name,
        "outputs",
    ) || same_text(name, "logs") || same_text(name, "target") || same_text(name, "__pycache__");
    proof {
        let all = default_excludes();
        assert(all[0] == ".git"@ && all[1] == "models"@ && all[2] == "data"@ && all[3] == "outputs"@ && all[4]
            == "logs"@ && all[5] == "target"@ && all[6] == "__pycache__"@);
    }
    found
}

fn is_kept(entry: &LocalEntry, additional: &Vec<String>) -> (r: bool)
    ensures
        r == kept(*entry, views(additional@)),
{
    if !entry.is_file {
        return false;
    }
    let key = manifest_name(entry.relative.as_str());
    let parts = split_at_char(key.as_str(), '/');
    let ghost all = pieces(key@, '/');
    let mut i: usize = 0;
    while i < parts.len()
        invariant
            views(parts@) == all,
            all == pieces(key@, '/'),
            key@ == manifest_key(entry.relative@),
            i <= parts@.len(),
            forall|k: int| 0 <= k < i ==> !default_excludes().contains(#[trigger] all[k]),
        decreases parts@.len() - i,
    {
        assert(all[i as int] == parts@[i as int]@);
        if is_default_exclude(parts[i].as_str()) {
            return false;
        }
        i = i + 1;
    }
    let mut j: usize = 0;
    while j < additional.len()
        invariant
            key@ == manifest_key(entry.relative@),
            j <= additional@.len(),
            forall|k: int|
                0 <= k < j ==> !trimmed_end(#[trigger] views(additional@)[k], '/').is_prefix_of(key@),
        decreases additional@.len() - j,
    {
        assert(views(additional@)[j as int] == additional@[j as int]@);
        if begins_with(key.as_str(), trim_end_char(additional[j].as_str(), '/').as_str()) {
            return false;
        }
        j = j + 1;
    }
    true
}

/// The path of an entry.
pub open spec fn path_of(entry: LocalEntry) -> Seq<Seq<u8>> {
    components(entry.components@)
}

/// Whether the entries at these places come in the order of their paths.
pub open spec fn in_path_order(entries: Seq<LocalEntry>, places: Seq<usize>) -> bool {
    forall|i: int, j: int|
        0 <= i < j < places.len() ==> !path_less(
            path_of(entries[(#[trigger] places[j]) as int]),
            path_of(entries[(#[trigger] places[i]) as int]),
        )
}

/// Whether these are places of a list of this length.
pub open spec fn in_bounds(places: Seq<usize>, len: nat) -> bool {
    forall|i: int| 0 <= i < places.len() ==> (#[trigger] places[i]) < len
}

/// What is not below `b` is not below what is not above `b`.
proof fn lemma_not_less_transitive(a: Seq<Seq<u8>>, b: Seq<Seq<u8>>, c: Seq<Seq<u8>>)
    requires
        !path_less(b, a),
        !path_less(c, b),
    ensures
        !path_less(c, a),
{
    if path_less(c, a) {
        lemma_path_less_total(a, b);
        if a != b {
            lemma_path_less_transitive(c, a, b);
        }
    }
}

fn merge(entries: &Vec<LocalEntry>, a: Vec<usize>, b: Vec<usize>) -> (r: Vec<usize>)
    requires
        in_bounds(a@, entries@.len()),
        in_bounds(b@, entries@.len()),
        in_path_order(entries@, a@),
        in_path_order(entries@, b@),
    ensures
        in_path_order(entries@, r@),
        r@.to_multiset() == a@.to_multiset().add(b@.to_multiset()),
        in_bounds(r@, entries@.len()),
{
    let mut out: Vec<usize> = Vec::new();
    let mut i: usize = 0;
    let mut j: usize = 0;
    proof {
        assert(a@.take(0) =~= Seq::<usize>::empty());
        assert(b@.take(0) =~= Seq::<usize>::empty());
        assert(out@.to_multiset() =~= a@.take(0).to_multiset().add(b@.take(0).to_multiset())) by {
            broadcast use vstd::multiset::group_multiset_axioms;
            vstd::seq_lib::to_multiset_len(Seq::<usize>::empty());
            assert(out@ =~= Seq::<usize>::empty());
            assert(Seq::<usize>::empty().to_multiset() =~= vstd::multiset::Multiset::<usize>::empty());
        }
    }
    while i < a.len() || j < b.len()
        invariant
            i <= a@.len(),
            j <= b@.len(),
            in_bounds(a@, entries@.len()),
            in_bounds(b@, entries@.len()),
            in_path_order(entries@, a@),
            in_path_order(entries@, b@),
            in_bounds(out@, entries@.len()),
            in_path_order(entries@, out@),
            out@.to_multiset() == a@.take(i as int).to_multiset().add(b@.take(j as int).to_multiset()),
            forall|k: int, m: int|
                0 <= k < out@.len() && i <= m < a@.len() ==> !path_less(
                    path_of(entries@[(#[trigger] a@[m]) as int]),
                    path_of(entries@[(#[trigger] out@[k]) as int]),
                ),
            forall|k: int, m: int|
                0 <= k < out@.len() && j <= m < b@.len() ==> !path_less(
                    path_of(entries@[(#[trigger] b@[m]) as int]),
                    path_of(entries@[(#[trigger] out@[k]) as int]),
                ),
        decreases a@.len() - i + b@.len() - j,
    {
        let from_a = if i >= a.len() {
            false
        } else if j >= b.len() {
            true
        } else {
            assert(a@[i as int] < entries@.len() && b@[j as int] < entries@.len());
            rank_paths(&entries[b[j]].components, &entries[a[i]].components) != Rank::Before
        };
        let next: usize = if from_a {
            a[i]
        } else {
            b[j]
        };
        let ghost so_far = out@;
        let ghost p = path_of(entries@[next as int]);
        proof {
            assert forall|m: int| i <= m < a@.len() implies !path_less(
                path_of(entries@[(#[trigger] a@[m]) as int]),
                p,
            ) by {
                if from_a {
                    if m == i {
                        lemma_path_less_irreflexive(p);
                    } else {
                        assert(!path_less(path_of(entries@[a@[m] as int]), path_of(entries@[a@[i as int] as int])));
                    }
                } else {
                    let first = path_of(entries@[a@[i as int] as int]);
                    assert(path_less(p, first));
                    if m > i {
                        assert(!path_less(path_of(entries@[a@[m] as int]), first));
                    } else {
                        lemma_path_less_irreflexive(first);
                    }
                    if path_less(first, p) {
                        lemma_path_less_transitive(first, p, first);
                        lemma_path_less_irreflexive(first);
                    }
                    lemma_not_less_transitive(p, first, path_of(entries@[a@[m] as int]));
                }
            }
            assert forall|m: int| j <= m < b@.len() implies !path_less(
                path_of(entries@[(#[trigger] b@[m]) as int]),
                p,
            ) by {
                if !from_a {
                    if m == j {
                        lemma_path_less_irreflexive(p);
                    } else {
                        assert(!path_less(path_of(entries@[b@[m] as int]), path_of(entries@[b@[j as int] as int])));
                    }
                } else {
                    let first = path_of(entries@[b@[j as int] as int]);
                    assert(!path_less(first, p));
                    if m > j {
                        assert(!path_less(path_of(entries@[b@[m] as int]), first));
                    } else {
                        lemma_path_less_irreflexive(first);
                    }
                    lemma_not_less_transitive(p, first, path_of(entries@[b@[m] as int]));
                }
            }
            vstd::seq_lib::to_multiset_build(so_far, next);
            if from_a {
                assert(a@.take(i + 1) =~= a@.take(i as int).push(next));
                vstd::seq_lib::to_multiset_build(a@.take(i as int), next);
            } else {
                assert(b@.take(j + 1) =~= b@.take(j as int).push(next));
                vstd::seq_lib::to_multiset_build(b@.take(j as int), next);
            }
        }
        out.push(next);
        if from_a {
            i = i + 1;
        } else {
            j = j + 1;
        }
        proof {
            assert(out@.to_multiset() =~= a@.take(i as int).to_multiset().add(b@.take(j as int).to_multiset()));
        }
    }
    proof {
        assert(a@.take(i as int) =~= a@);
        assert(b@.take(j as int) =~= b@);
    }
    out
}

fn sort_places(entries: &Vec<LocalEntry>, places: Vec<usize>) -> (r: Vec<usize>)
    requires
        in_bounds(places@, entries@.len()),
    ensures
        in_path_order(entries@, r@),
        r@.to_multiset() == places@.to_multiset(),
        in_bounds(r@, entries@.len()),
    decreases places@.len(),
{
    if places.len() <= 1 {
        return places;
    }
    let mut front = places;
    let middle: usize = front.len() / 2;
    let back = front.split_off(middle);
    proof {
        assert(front@ + back@ =~= places@);
        vstd::seq_lib::lemma_multiset_commutative(front@, back@);
        assert forall|i: int| 0 <= i < front@.len() implies (#[trigger] front@[i]) < entries@.len() by {
            assert(front@[i] == places@[i]);
        }
        assert forall|i: int| 0 <= i < back@.len() implies (#[trigger] back@[i]) < entries@.len() by {
            assert(back@[i] == places@[i + middle]);
        }
    }
    let a = sort_places(entries, front);
    let b = sort_places(entries, back);
    merge(entries, a, b)
}

/// The places of the files that are brought to a host, in the order of their
/// paths: exactly those that are kept, each of them once.
pub fn collect_local_files(entries: &Vec<LocalEntry>, additional: &Vec<String>) -> (r: Vec<usize>)
    ensures
        r@.no_duplicates(),
        forall|i: usize|
            #[trigger] r@.contains(i) <==> i < entries@.len() && kept(entries@[i as int], views(additional@)),
        in_path_order(entries@, r@),
{
    let mut places: Vec<usize> = Vec::new();
    let mut i: usize = 0;
    while i < entries.len()
        invariant
            i <= entries@.len(),
            places@.no_duplicates(),
            in_bounds(places@, i as nat),
            forall|k: usize|
                #[trigger] places@.contains(k) <==> k < i && kept(entries@[k as int], views(additional@)),
        decreases entries@.len() - i,
    {
        let ghost before = places@;
        if is_kept(&entries[i], additional) {
            places.push(i);
            proof {
                assert forall|k: usize|
                    #[trigger] places@.contains(k) <==> k < i + 1 && kept(entries@[k as int], views(additional@)) by {
                    if k == i {
                        assert(places@[before.len() as int] == k);
                    } else {
                        if before.contains(k) {
                            let m = choose|m: int| 0 <= m < before.len() && before[m] == k;
                            assert(places@[m] == k);
                        }
                        if places@.contains(k) {
                            let m = choose|m: int| 0 <= m < places@.len() && places@[m] == k;
                            assert(before[m] == k);
                        }
                    }
                }
            }
        }
        i = i + 1;
    }
    let r = sort_places(entries, places);
    proof {
        places@.lemma_multiset_has_no_duplicates();
        r@.lemma_multiset_has_no_duplicates_conv();
        assert forall|k: usize|
            #[trigger] r@.contains(k) <==> k < entries@.len() && kept(entries@[k as int], views(additional@)) by {
            assert(places@.contains(k) <==> k < entries@.len() && kept(entries@[k as int], views(additional@)));
            vstd::seq_lib::to_multiset_contains(r@, k);
            vstd::seq_lib::to_multiset_contains(places@, k);
        }
    }
    r
}

/// Whether a file is brought to a host: it is a regular file, no component of its
/// path is `.git`, `models`, `data`, `outputs`, `logs`, `target` or `__pycache__`,
/// and its path does not begin with what else is to be left out, slashes at whose
/// end do not count. A backslash in a path counts as a slash.
pub proof fn law_which_files_are_brought(entry: LocalEntry, additional: Seq<Seq<char>>)
    ensures
        ({
            let key = replaced(entry.relative@, '\\', '/');
            kept(entry, additional) <==> {
                &&& entry.is_file
                &&& forall|i: int|
                    0 <= i < pieces(key, '/').len() ==> {
                        let part = #[trigger] pieces(key, '/')[i];
                        &&& part != ".git"@
                        &&& part != "models"@
                        &&& part != "data"@
                        &&& part != "outputs"@
                        &&& part != "logs"@
                        &&& part != "target"@
                        &&& part != "__pycache__"@
                    }
                &&& forall|j: int|
                    0 <= j < additional.len() ==> !trimmed_end(#[trigger] additional[j], '/').is_prefix_of(key)
            }
        }),
{
    let key = manifest_key(entry.relative@);
    let parts = pieces(key, '/');
    let all = default_excludes();
    assert(all[0] == ".git"@ && all[1] == "models"@ && all[2] == "data"@ && all[3] == "outputs"@);
    assert(all[4] == "logs"@ && all[5] == "target"@ && all[6] == "__pycache__"@);
    assert(all.len() == 7);
    assert forall|part: Seq<char>| #[trigger]
        all.contains(part) <==> part == ".git"@ || part == "models"@ || part == "data"@ || part == "outputs"@ || part
            == "logs"@ || part == "target"@ || part == "__pycache__"@ by {
        if all.contains(part) {
            let m = choose|m: int| 0 <= m < all.len() && all[m] == part;
            assert(m == 0 || m == 1 || m == 2 || m == 3 || m == 4 || m == 5 || m == 6);
        }
    }
    if excluded_by_default(key) {
        let i = choose|i: int| 0 <= i < parts.len() && all.contains(#[trigger] parts[i]);
        assert(all.contains(parts[i]));
    } else {
        assert forall|i: int| 0 <= i < parts.len() implies !all.contains(#[trigger] parts[i]) by {}
    }
}

/// A file below a directory that is left out by default, however deep it lies there,
/// is never among the files that are collected; nor is one whose path begins with
/// what else is to be left out, written with any number of slashes at its end.
pub proof fn law_no_excluded_file_is_collected(
    entries: Seq<LocalEntry>,
    additional: Seq<Seq<char>>,
    places: Seq<usize>,
    place: usize,
    before: Seq<char>,
    name: Seq<char>,
    after: Seq<char>,
    slashes: nat,
)
    requires
        forall|i: usize|
            #[trigger] places.contains(i) <==> i < entries.len() && kept(entries[i as int], additional),
        place < entries.len(),
    ensures
        ({
            let path = entries[place as int].relative@;
            let fixed = name == ".git"@ || name == "models"@ || name == "data"@ || name == "outputs"@ || name
                == "logs"@ || name == "target"@ || name == "__pycache__"@;
            &&& fixed && path == name ==> !places.contains(place)
            &&& fixed && path == name + seq!['/'] + after ==> !places.contains(place)
            &&& fixed && path == before + seq!['/'] + name ==> !places.contains(place)
            &&& fixed && path == before + seq!['/'] + name + seq!['/'] + after ==> !places.contains(place)
            &&& (name.len() == 0 || name.last() != '/') && additional.contains(name + Seq::new(slashes, |i: int| '/'))
                && name.is_prefix_of(replaced(path, '\\', '/')) ==> !places.contains(place)
            &&& !entries[place as int].is_file ==> !places.contains(place)
        }),
{
    let entry = entries[place as int];
    let path = entry.relative@;
    let key = replaced(path, '\\', '/');
    law_which_files_are_brought(entry, additional);
    if name == ".git"@ || name == "models"@ || name == "data"@ || name == "outputs"@ || name == "logs"@ || name
        == "target"@ || name == "__pycache__"@ {
        lemma_default_names(name);
        let b = replaced(before, '\\', '/');
        let a = replaced(after, '\\', '/');
        let slash = seq!['/'];
        if path == name {
            assert(key =~= name);
            lemma_component(Seq::empty(), name, Seq::empty());
        }
        if path == name + slash + after {
            assert(key =~= name + slash + a);
            lemma_component(Seq::empty(), name, a);
        }
        if path == before + slash + name {
            assert(key =~= b + slash + name);
            lemma_component(b, name, Seq::empty());
        }
        if path == before + slash + name + slash + after {
            assert(key =~= b + slash + name + slash + a);
            lemma_component(b, name, a);
        }
    }
    let excluded = name + Seq::new(slashes, |i: int| '/');
    if (name.len() == 0 || name.last() != '/') && additional.contains(excluded) {
        law_only_the_run_at_the_end_is_trimmed(name, '/', slashes);
        let j = choose|j: int| 0 <= j < additional.len() && additional[j] == excluded;
        assert(trimmed_end(additional[j], '/') == name);
    }
}

proof fn lemma_default_names(name: Seq<char>)
    requires
        name == ".git"@ || name == "models"@ || name == "data"@ || name == "outputs"@ || name == "logs"@ || name
            == "target"@ || name == "__pycache__"@,
    ensures
        !name.contains('/'),
        !name.contains('\\'),
        replaced(name, '\\', '/') == name,
{
    reveal_strlit(".git");
    reveal_strlit("models");
    reveal_strlit("data");
    reveal_strlit("outputs");
    reveal_strlit("logs");
    reveal_strlit("target");
    reveal_strlit("__pycache__");
    assert(replaced(name, '\\', '/') =~= name);
}

proof fn lemma_component(before: Seq<char>, name: Seq<char>, after: Seq<char>)
    requires
        !name.contains('/'),
    ensures
        pieces(name, '/').contains(name),
        pieces(name + seq!['/'] + after, '/').contains(name),
        pieces(before + seq!['/'] + name, '/').contains(name),
        pieces(before + seq!['/'] + name + seq!['/'] + after, '/').contains(name),
    decreases before.len(),
{
    let slash = seq!['/'];
    law_pieces_of_parts(name, after, '/');
    assert(pieces(name, '/')[0] == name);
    assert(pieces(name + slash + after, '/')[0] == name);
    let k = first_index(before, '/');
    lemma_first_index_bounds(before, '/');
    if k < before.len() {
        let head = before.take(k);
        let rest = before.skip(k + 1);
        lemma_component(rest, name, after);
        assert(!head.contains('/')) by {
            assert(forall|i: int| 0 <= i < head.len() ==> head[i] == before[i]);
        }
        assert(before + slash + name =~= head + slash + (rest + slash + name));
        law_pieces_of_parts(head, rest + slash + name, '/');
        assert(before + slash + name + slash + after =~= head + slash + (rest + slash + name + slash + after));
        law_pieces_of_parts(head, rest + slash + name + slash + after, '/');
        let short = pieces(rest + slash + name, '/');
        let m = choose|m: int| 0 <= m < short.len() && short[m] == name;
        assert(pieces(before + slash + name, '/')[m + 1] == name);
        let long = pieces(rest + slash + name + slash + after, '/');
        let n = choose|n: int| 0 <= n < long.len() && long[n] == name;
        assert(pieces(before + slash + name + slash + after, '/')[n + 1] == name);
    } else {
        assert(!before.contains('/'));
        law_pieces_of_parts(before, name, '/');
        assert(pieces(before + slash + name, '/')[1] == name);
        assert(before + slash + name + slash + after =~= before + slash + (name + slash + after));
        law_pieces_of_parts(before, name + slash + after, '/');
        assert(pieces(before + slash + name + slash + after, '/')[1] == name);
    }
}

/// A file that lies in no directory that is left out, and is itself not to be left
/// out, is collected.
pub proof fn law_every_other_file_is_collected(
    entries: Seq<LocalEntry>,
    places: Seq<usize>,
    place: usize,
)
    requires
        forall|i: usize|
            #[trigger] places.contains(i) <==> i < entries.len() && kept(entries[i as int], Seq::empty()),
        place < entries.len(),
        entries[place as int].is_file,
        forall|i: int|
            0 <= i < pieces(replaced(entries[place as int].relative@, '\\', '/'), '/').len() ==> {
                let part = #[trigger] pieces(replaced(entries[place as int].relative@, '\\', '/'), '/')[i];
                part != ".git"@ && part != "models"@ && part != "data"@ && part != "outputs"@ && part != "logs"@
                    && part != "target"@ && part != "__pycache__"@
            },
    ensures
        places.contains(place),
{
    law_which_files_are_brought(entries[place as int], Seq::empty());
}

/// Files that are collected come in the order of their paths: of two of them the
/// one whose path is less does not come later.
pub proof fn law_files_come_in_the_order_of_their_paths(
    entries: Seq<LocalEntry>,
    places: Seq<usize>,
    i: int,
    j: int,
)
    requires
        in_path_order(entries, places),
        0 <= i < j < places.len(),
    ensures
        !path_less(
            Seq::new(entries[places[j] as int].components@.len(), |k: int| entries[places[j] as int].components@[k]@),
            Seq::new(entries[places[i] as int].components@.len(), |k: int| entries[places[i] as int].components@[k]@),
        ),
{
    assert(!path_less(path_of(entries[places[j] as int]), path_of(entries[places[i] as int])));
    assert(path_of(entries[places[j] as int]) =~= Seq::new(
        entries[places[j] as int].components@.len(),
        |k: int| entries[places[j] as int].components@[k]@,
    ));
    assert(path_of(entries[places[i] as int]) =~= Seq::new(
        entries[places[i] as int].components@.len(),
        |k: int| entries[places[i] as int].components@[k]@,
    ));
}

/// The name under which a host knows a path has the path's characters, with each
/// backslash written as a slash.
pub proof fn law_a_name_is_the_path_with_slashes(relative: Seq<char>)
    ensures
        manifest_key(relative).len() == relative.len(),
        forall|i: int|
            0 <= i < relative.len() ==> #[trigger] manifest_key(relative)[i] == if relative[i] == '\\' {
                '/'
            } else {
                relative[i]
            },
{
}

} // verus!
