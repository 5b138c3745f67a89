//! Paths as texts.

use vstd::prelude::*;
use crate::deploy::Platform;
use crate::text::{
    chars_of, first_index, join_between, joined, lemma_first_index_bounds, pieces, replace_char, replaced, same_text,
    split_at_char, text_between, views,
};

verus! {

/// Whether a path begins at the root.
pub open spec fn absolute(path: Seq<char>) -> bool {
    path.len() > 0 && path[0] == '/'
}

/// `path` below `base`: an absolute path stands for itself, and a slash is put
/// between the two unless `base` is empty or ends in one.
pub open spec fn join(base: Seq<char>, path: Seq<char>) -> Seq<char> {
    if absolute(path) {
        path
    } else if base.len() == 0 || base.last() == '/' {
        base + path
    } else {
        base + "/"@ + path
    }
}

/// Whether a path begins at the root.
pub fn is_absolute(path: &str) -> (r: bool)
    ensures
        r == absolute(path@),
{
    let chars = chars_of(path);
    chars.len() > 0 && chars[0] == '/'
}

/// `path` below `base`.
pub fn join_path(base: &str, path: &str) -> (r: String)
    ensures
        r@ == join(base@, path@),
{
    if is_absolute(path) {
        return path.to_owned();
    }
    let chars = chars_of(base);
    let mut out = base.to_owned();
    if chars.len() > 0 && chars[chars.len() - 1] != '/' {
        out.append("/");
    }
    out.append(path);
    out
}

/// Whether one of the components of a path leads to a parent directory.
pub open spec fn climbs(path: Seq<char>) -> bool {
    pieces(path, '/').contains(".."@)
}

/// Whether one of the components of a path leads to a parent directory.
pub fn has_parent_component(path: &str) -> (r: bool)
    ensures
        r == climbs(path@),
{
    let parts = split_at_char(path, '/');
    let mut i: usize = 0;
    while i < parts.len()
        invariant
            views(parts@) == pieces(path@, '/'),
            i <= parts@.len(),
            forall|k: int| 0 <= k < i ==> (#[trigger] views(parts@)[k]) != ".."@,
        decreases parts@.len() - i,
    {
        if same_text(parts[i].as_str(), "..") {
            assert(views(parts@)[i as int] == ".."@);
            return true;
        }
        i = i + 1;
    }
    proof {
        if climbs(path@) {
            let k = choose|k: int| 0 <= k < pieces(path@, '/').len() && pieces(path@, '/')[k] == ".."@;
            assert(views(parts@)[k] != ".."@);
        }
    }
    false
}

/// Why a path from a manifest is refused.
#[derive(Clone, Copy, Debug, PartialEq, Eq, Structural)]
pub enum UnsafePath {
    Manifest,
}

/// Where a file of a manifest goes below `root`. A path that begins at the root
/// of the file system, or that leads to a parent directory, is refused.
pub fn safe_local_join(root: &str, relative: &str) -> (r: Result<String, UnsafePath>)
    ensures
        match r {
            Ok(path) => !absolute(relative@) && !climbs(relative@) && path@ == join(root@, relative@),
            Err(_) => absolute(relative@) || climbs(relative@),
        },
{
    if is_absolute(relative) || has_parent_component(relative) {
        return Err(UnsafePath::Manifest);
    }
    Ok(join_path(root, relative))
}

/// An accepted path stays below the root: it is the root, a slash where the root
/// does not end in one, and a path no component of which leads upwards.
pub proof fn law_accepted_path_stays_below_root(root: Seq<char>, relative: Seq<char>)
    requires
        !absolute(relative),
        !climbs(relative),
    ensures
        root.is_prefix_of(join(root, relative)),
        relative == join(root, relative).skip(join(root, relative).len() - relative.len()),
        forall|i: int| 0 <= i < pieces(relative, '/').len() ==> #[trigger] pieces(relative, '/')[i] != ".."@,
{
    let whole = join(root, relative);
    assert(root =~= whole.subrange(0, root.len() as int));
    assert(relative =~= whole.skip(whole.len() - relative.len()));
    assert forall|i: int| 0 <= i < pieces(relative, '/').len() implies #[trigger] pieces(relative, '/')[i] != ".."@ by {
        if pieces(relative, '/')[i] == ".."@ {
            assert(pieces(relative, '/').contains(".."@));
        }
    }
}

/// Whether a character separates the components of a path.
pub open spec fn separates(platform: Platform, c: char) -> bool {
    match platform {
        Platform::Unix => c == '/',
        Platform::Windows => c == '/' || c == '\\',
    }
}

/// Whether a path begins with a drive.
pub open spec fn has_drive(path: Seq<char>) -> bool {
    path.len() >= 2 && path[1] == ':' && ('a' <= path[0] <= 'z' || 'A' <= path[0] <= 'Z')
}

/// A path with the separators of this platform written as slashes.
pub open spec fn slashed(platform: Platform, path: Seq<char>) -> Seq<char> {
    match platform {
        Platform::Unix => path,
        Platform::Windows => replaced(path, '\\', '/'),
    }
}

/// Whether a path leads out of the directory that it is taken in: it begins at
/// a root or with a drive, or a component of it leads to a parent directory.
pub open spec fn leads_out(platform: Platform, path: Seq<char>) -> bool {
    absolute(slashed(platform, path)) || climbs(slashed(platform, path)) || (platform == Platform::Windows
        && has_drive(path))
}

/// Whether a component is a name: it is not empty, and not a lone dot.
pub open spec fn names_something(part: Seq<char>) -> bool {
    part.len() > 0 && part != "."@
}

/// The names among the components of a path.
pub open spec fn names_in(platform: Platform, path: Seq<char>) -> Seq<Seq<char>> {
    pieces(slashed(platform, path), '/').filter(|part: Seq<char>| names_something(part))
}

/// What stands between a directory and a path below it.
pub open spec fn glue(platform: Platform, base: Seq<char>) -> Seq<char> {
    if base.len() == 0 || separates(platform, base.last()) {
        Seq::empty()
    } else {
        match platform {
            Platform::Unix => "/"@,
            Platform::Windows => "\\"@,
        }
    }
}

/// A path that does not lead out, below `base`. On Windows it is written with
/// backslashes and without what is no name.
pub open spec fn join_on(platform: Platform, base: Seq<char>, path: Seq<char>) -> Seq<char> {
    match platform {
        Platform::Unix => join(base, path),
        Platform::Windows => if names_in(platform, path).len() == 0 {
            base
        } else {
            base + glue(platform, base) + joined(names_in(platform, path), "\\"@)
        },
    }
}

fn begins_with_drive(path: &str) -> (r: bool)
    ensures
        r == has_drive(path@),
{
    let chars = chars_of(path);
    chars.len() >= 2 && chars[1] == ':' && (('a' <= chars[0] && chars[0] <= 'z') || ('A' <= chars[0] && chars[0]
        <= 'Z'))
}

fn collect_names(path: &str) -> (r: Vec<String>)
    ensures
        views(r@) == pieces(path@, '/').filter(|part: Seq<char>| names_something(part)),
{
    let parts = split_at_char(path, '/');
    let ghost all = pieces(path@, '/');
    let ghost wanted = |part: Seq<char>| names_something(part);
    let mut out: Vec<String> = Vec::new();
    let mut i: usize = 0;
    proof {
        reveal(Seq::filter);
        assert(views(out@) =~= all.take(0).filter(wanted));
    }
    while i < parts.len()
        invariant
            views(parts@) == all,
            wanted == (|part: Seq<char>| names_something(part)),
            i <= parts@.len(),
            views(out@) == all.take(i as int).filter(wanted),
        decreases parts@.len() - i,
    {
        let ghost before = out@;
        proof {
            reveal(Seq::filter);
            assert(all.take(i + 1).drop_last() =~= all.take(i as int));
            assert(all.take(i + 1).last() == parts@[i as int]@);
        }
        if !parts[i].as_str().is_empty() && !same_text(parts[i].as_str(), ".") {
            let part = parts[i].clone();
            out.push(part);
            assert(views(out@) =~= views(before).push(part@));
        }
        i = i + 1;
    }
    assert(all.take(i as int) =~= all);
    out
}

/// Where a file of a manifest goes below `root` on this platform. A path that
/// leads out of the directory is refused.
pub fn safe_join_on(platform: Platform, root: &str, relative: &str) -> (r: Result<String, UnsafePath>)
    ensures
        match r {
            Ok(path) => !leads_out(platform, relative@) && path@ == join_on(platform, root@, relative@),
            Err(_) => leads_out(platform, relative@),
        },
{
    match platform {
        Platform::Unix => safe_local_join(root, relative),
        Platform::Windows => {
            let path = replace_char(relative, '\\', '/');
            if begins_with_drive(relative) || is_absolute(path.as_str()) || has_parent_component(path.as_str()) {
                return Err(UnsafePath::Manifest);
            }
            let names = collect_names(path.as_str());
            let ghost all = names_in(platform, relative@);
            assert(views(names@) =~= all);
            let mut out = root.to_owned();
            if names.len() == 0 {
                return Ok(out);
            }
            let chars = chars_of(root);
            if chars.len() > 0 && chars[chars.len() - 1] != '/' && chars[chars.len() - 1] != '\\' {
                out.append("\\");
            }
            out.append(join_between(&names, 0, names.len(), "\\").as_str());
            proof {
                assert(views(names@).subrange(0, names@.len() as int) =~= all);
                assert(out@ =~= root@ + glue(platform, root@) + joined(all, "\\"@));
            }
            Ok(out)
        },
    }
}

proof fn lemma_piece_is_inside(s: Seq<char>, sep: char, i: int, k: int)
    requires
        0 <= i < pieces(s, sep).len(),
        0 <= k < pieces(s, sep)[i].len(),
    ensures
        s.contains(pieces(s, sep)[i][k]),
        pieces(s, sep)[i][k] != sep,
    decreases s.len(),
{
    let at = first_index(s, sep);
    lemma_first_index_bounds(s, sep);
    let all = pieces(s, sep);
    if 0 <= at < s.len() {
        let rest = s.skip(at + 1);
        if i == 0 {
            assert(all[0] =~= s.take(at));
            assert(s[k] == all[0][k]);
        } else {
            assert(all[i] == pieces(rest, sep)[i - 1]);
            lemma_piece_is_inside(rest, sep, i - 1, k);
            let m = choose|m: int| 0 <= m < rest.len() && rest[m] == all[i][k];
            assert(s[m + at + 1] == all[i][k]);
        }
    } else {
        assert(all[0] == s);
    }
}

proof fn lemma_filter_keeps(list: Seq<Seq<char>>, i: int)
    requires
        0 <= i < list.filter(|part: Seq<char>| names_something(part)).len(),
    ensures
        names_something(list.filter(|part: Seq<char>| names_something(part))[i]),
        list.contains(list.filter(|part: Seq<char>| names_something(part))[i]),
    decreases list.len(),
{
    let wanted = |part: Seq<char>| names_something(part);
    reveal(Seq::filter);
    if list.len() > 0 {
        let rest = list.drop_last();
        let kept = rest.filter(wanted);
        if i < kept.len() {
            lemma_filter_keeps(rest, i);
            let m = choose|m: int| 0 <= m < rest.len() && rest[m] == kept[i];
            assert(list[m] == kept[i]);
        } else {
            assert(list[list.len() - 1] == list.last());
        }
    }
}

/// What the names of a path that does not lead out are like: not empty, no dots
/// that stand for a directory, and without a separator.
pub proof fn law_names_are_plain(platform: Platform, path: Seq<char>, i: int)
    requires
        !leads_out(platform, path),
        0 <= i < names_in(platform, path).len(),
    ensures
        names_something(names_in(platform, path)[i]),
        names_in(platform, path)[i] != ".."@,
        forall|k: int|
            0 <= k < names_in(platform, path)[i].len() ==> !separates(
                platform,
                #[trigger] names_in(platform, path)[i][k],
            ),
{
    let whole = slashed(platform, path);
    let all = pieces(whole, '/');
    let name = names_in(platform, path)[i];
    lemma_filter_keeps(all, i);
    let m = choose|m: int| 0 <= m < all.len() && all[m] == name;
    if name == ".."@ {
        assert(all.contains(".."@));
    }
    assert forall|k: int| 0 <= k < name.len() implies !separates(platform, #[trigger] name[k]) by {
        lemma_piece_is_inside(whole, '/', m, k);
        let at = choose|at: int| 0 <= at < whole.len() && whole[at] == name[k];
        assert(whole[at] != '\\' || platform == Platform::Unix);
    }
}

/// A path that does not lead out stays below the root on every platform: it is
/// the root, at most one separator, and what follows is made of the path's names
/// or, on Unix, is the path itself.
pub proof fn law_a_joined_path_stays_below_root(platform: Platform, root: Seq<char>, relative: Seq<char>)
    requires
        !leads_out(platform, relative),
    ensures
        root.is_prefix_of(join_on(platform, root, relative)),
        platform == Platform::Unix ==> join_on(platform, root, relative) == root + glue(platform, root) + relative,
        platform == Platform::Windows && names_in(platform, relative).len() > 0 ==> join_on(platform, root, relative)
            == root + glue(platform, root) + joined(names_in(platform, relative), "\\"@),
{
    let whole = join_on(platform, root, relative);
    if platform == Platform::Unix {
        assert(whole =~= root + glue(platform, root) + relative);
    }
    assert(root =~= whole.subrange(0, root.len() as int));
}

/// A path without the separators and the lone dots at its end.
pub open spec fn tidy_end(platform: Platform, path: Seq<char>) -> Seq<char>
    decreases path.len(),
{
    if path.len() > 1 && (separates(platform, path.last()) || (path.last() == '.' && separates(
        platform,
        path[path.len() - 2],
    ))) {
        tidy_end(platform, path.drop_last())
    } else {
        path
    }
}

/// The place of the last `c` in `s`, or -1 where there is none.
pub open spec fn last_index(s: Seq<char>, c: char) -> int
    decreases s.len(),
{
    if s.len() == 0 {
        -1
    } else if s.last() == c {
        s.len() - 1
    } else {
        last_index(s.drop_last(), c)
    }
}

/// The place of the last separator in a path, or -1 where there is none.
pub open spec fn last_separator(platform: Platform, path: Seq<char>) -> int
    decreases path.len(),
{
    if path.len() == 0 {
        -1
    } else if separates(platform, path.last()) {
        path.len() - 1
    } else {
        last_separator(platform, path.drop_last())
    }
}

/// The place where the last component of a path begins.
pub open spec fn name_start(platform: Platform, path: Seq<char>) -> int {
    last_separator(platform, tidy_end(platform, path)) + 1
}

/// The last component of a path.
pub open spec fn file_name(platform: Platform, path: Seq<char>) -> Seq<char> {
    tidy_end(platform, path).skip(name_start(platform, path))
}

/// Whether the last component of a path is the name of a file.
pub open spec fn has_file_name(platform: Platform, path: Seq<char>) -> bool {
    names_something(file_name(platform, path)) && file_name(platform, path) != ".."@
}

/// The length of a file name without its extension: that is what follows its
/// last dot, unless that dot begins the name.
pub open spec fn stem_length(name: Seq<char>) -> int {
    let dot = last_index(name, '.');
    if dot <= 0 {
        name.len() as int
    } else {
        dot
    }
}

/// A path with the extension of its last component replaced. A path whose last
/// component is no name stays as it is.
pub open spec fn with_extension(platform: Platform, path: Seq<char>, extension: Seq<char>) -> Seq<char> {
    if has_file_name(platform, path) {
        tidy_end(platform, path).take(name_start(platform, path) + stem_length(file_name(platform, path))) + "."@
            + extension
    } else {
        path
    }
}

proof fn lemma_tidy_end_is_prefix(platform: Platform, path: Seq<char>)
    ensures
        tidy_end(platform, path).is_prefix_of(path),
    decreases path.len(),
{
    let tidy = tidy_end(platform, path);
    if tidy != path {
        lemma_tidy_end_is_prefix(platform, path.drop_last());
        assert(tidy =~= path.drop_last().subrange(0, tidy.len() as int));
        assert(tidy =~= path.subrange(0, tidy.len() as int));
    } else {
        assert(path =~= path.subrange(0, path.len() as int));
    }
}

proof fn lemma_last_index_bounds(s: Seq<char>, c: char)
    ensures
        -1 <= last_index(s, c) < s.len(),
    decreases s.len(),
{
    if s.len() > 0 && s.last() != c {
        lemma_last_index_bounds(s.drop_last(), c);
    }
}

proof fn lemma_last_separator_bounds(platform: Platform, s: Seq<char>)
    ensures
        -1 <= last_separator(platform, s) < s.len(),
        forall|i: int| last_separator(platform, s) < i < s.len() ==> !separates(platform, #[trigger] s[i]),
    decreases s.len(),
{
    if s.len() > 0 && !separates(platform, s.last()) {
        lemma_last_separator_bounds(platform, s.drop_last());
        assert forall|i: int| last_separator(platform, s) < i < s.len() implies !separates(
            platform,
            #[trigger] s[i],
        ) by {
            if i < s.len() - 1 {
                assert(s[i] == s.drop_last()[i]);
            }
        }
    }
}

/// A path whose extension is replaced stays in its directory: all that stands
/// before its last component stays as it is, and what follows is one component,
/// if the extension holds no separator.
pub proof fn law_a_replaced_extension_keeps_the_directory(
    platform: Platform,
    path: Seq<char>,
    extension: Seq<char>,
)
    requires
        has_file_name(platform, path),
        forall|i: int| 0 <= i < extension.len() ==> !separates(platform, #[trigger] extension[i]),
    ensures
        0 <= name_start(platform, path) <= path.len(),
        name_start(platform, path) <= with_extension(platform, path, extension).len(),
        with_extension(platform, path, extension).take(name_start(platform, path)) == path.take(
            name_start(platform, path),
        ),
        forall|i: int|
            name_start(platform, path) <= i < with_extension(platform, path, extension).len() ==> !separates(
                platform,
                #[trigger] with_extension(platform, path, extension)[i],
            ),
{
    let tidy = tidy_end(platform, path);
    let start = name_start(platform, path);
    let name = file_name(platform, path);
    let whole = with_extension(platform, path, extension);
    lemma_tidy_end_is_prefix(platform, path);
    lemma_last_separator_bounds(platform, tidy);
    lemma_last_index_bounds(name, '.');
    reveal_strlit(".");
    let stem = start + stem_length(name);
    assert(whole =~= tidy.take(stem) + "."@ + extension);
    assert(tidy =~= path.subrange(0, tidy.len() as int));
    assert(whole.take(start) =~= path.take(start)) by {
        assert forall|i: int| 0 <= i < start implies whole[i] == path[i] by {
            assert(tidy[i] == path.subrange(0, tidy.len() as int)[i]);
        }
    }
    assert forall|i: int| start <= i < whole.len() implies !separates(platform, #[trigger] whole[i]) by {
        if i < stem {
            assert(whole[i] == tidy[i]);
        } else if i == stem {
            assert(whole[i] == '.');
        } else {
            assert(whole[i] == extension[i - stem - 1]);
        }
    }
}

proof fn lemma_tidy_end_of_suffix(platform: Platform, pre: Seq<char>, name: Seq<char>)
    requires
        has_file_name(platform, name),
    ensures
        tidy_end(platform, pre + name) == pre + tidy_end(platform, name),
    decreases name.len(),
{
    let whole = pre + name;
    let tidy = tidy_end(platform, name);
    lemma_last_separator_bounds(platform, tidy);
    lemma_tidy_end_is_prefix(platform, name);
    assert(name.len() > 0);
    assert(whole.last() == name.last());
    if tidy != name {
        assert(whole[whole.len() - 2] == name[name.len() - 2]);
        assert(whole.drop_last() =~= pre + name.drop_last());
        lemma_tidy_end_of_suffix(platform, pre, name.drop_last());
    } else {
        let last = file_name(platform, name);
        lemma_tidy_end_is_prefix(platform, name.drop_last());
        assert(last.last() == name.last());
        assert(!separates(platform, name[name.len() - 1]));
        if name.len() > 1 {
            assert(whole[whole.len() - 2] == name[name.len() - 2]);
        } else if name.last() == '.' {
            reveal_strlit(".");
            assert(last =~= "."@);
        }
    }
}

proof fn lemma_last_separator_of_suffix(platform: Platform, pre: Seq<char>, s: Seq<char>)
    requires
        pre.len() == 0 || separates(platform, pre.last()),
    ensures
        last_separator(platform, pre + s) == pre.len() + last_separator(platform, s),
    decreases s.len(),
{
    let whole = pre + s;
    if s.len() == 0 {
        assert(whole =~= pre);
    } else {
        assert(whole.last() == s.last());
        if !separates(platform, s.last()) {
            assert(whole.drop_last() =~= pre + s.drop_last());
            lemma_last_separator_of_suffix(platform, pre, s.drop_last());
        }
    }
}

proof fn lemma_file_name_of_suffix(platform: Platform, pre: Seq<char>, name: Seq<char>)
    requires
        has_file_name(platform, name),
        pre.len() == 0 || separates(platform, pre.last()),
    ensures
        has_file_name(platform, pre + name),
        name_start(platform, pre + name) == pre.len() + name_start(platform, name),
        0 <= name_start(platform, name),
{
    let tidy = tidy_end(platform, name);
    lemma_tidy_end_of_suffix(platform, pre, name);
    lemma_last_separator_of_suffix(platform, pre, tidy);
    lemma_last_separator_bounds(platform, tidy);
    assert(file_name(platform, pre + name) =~= file_name(platform, name));
}

proof fn lemma_plain_name(platform: Platform, name: Seq<char>)
    requires
        names_something(name),
        name != ".."@,
        forall|k: int| 0 <= k < name.len() ==> !separates(platform, #[trigger] name[k]),
    ensures
        has_file_name(platform, name),
{
    assert(!separates(platform, name[name.len() - 1]));
    if name.len() > 1 {
        assert(!separates(platform, name[name.len() - 2]));
    }
    assert(tidy_end(platform, name) == name);
    lemma_last_separator_bounds(platform, name);
    if last_separator(platform, name) >= 0 {
        lemma_separator_stands_there(platform, name);
    }
    assert(file_name(platform, name) =~= name);
}

proof fn lemma_separator_stands_there(platform: Platform, s: Seq<char>)
    requires
        last_separator(platform, s) >= 0,
    ensures
        last_separator(platform, s) < s.len(),
        separates(platform, s[last_separator(platform, s)]),
    decreases s.len(),
{
    if s.len() > 0 && !separates(platform, s.last()) {
        lemma_separator_stands_there(platform, s.drop_last());
    }
}

/// Whether the last component of a path below a directory is the name of a file.
pub open spec fn ends_in_name(platform: Platform, relative: Seq<char>) -> bool {
    match platform {
        Platform::Unix => has_file_name(platform, relative),
        Platform::Windows => names_in(platform, relative).len() > 0,
    }
}

/// A path that does not lead out and ends in a name stays below the root when its
/// extension is replaced.
pub proof fn law_a_replaced_extension_stays_below_root(
    platform: Platform,
    root: Seq<char>,
    relative: Seq<char>,
    extension: Seq<char>,
)
    requires
        !leads_out(platform, relative),
        ends_in_name(platform, relative),
        forall|i: int| 0 <= i < extension.len() ==> !separates(platform, #[trigger] extension[i]),
    ensures
        root.is_prefix_of(with_extension(platform, join_on(platform, root, relative), extension)),
{
    let whole = join_on(platform, root, relative);
    let base = root + glue(platform, root);
    reveal_strlit("/");
    reveal_strlit("\\");
    law_a_joined_path_stays_below_root(platform, root, relative);
    if base.len() > 0 {
        if glue(platform, root).len() == 0 {
            assert(base =~= root);
        }
        assert(separates(platform, base.last()));
    }
    match platform {
        Platform::Unix => {
            lemma_file_name_of_suffix(platform, base, relative);
        },
        Platform::Windows => {
            let names = names_in(platform, relative);
            let last = names.last();
            law_names_are_plain(platform, relative, names.len() - 1);
            lemma_plain_name(platform, last);
            if names.len() == 1 {
                assert(whole =~= base + last);
                lemma_file_name_of_suffix(platform, base, last);
            } else {
                let pre = base + joined(names.drop_last(), "\\"@) + "\\"@;
                assert(whole =~= pre + last);
                assert(pre.last() == '\\');
                lemma_file_name_of_suffix(platform, pre, last);
            }
        },
    }
    law_a_replaced_extension_keeps_the_directory(platform, whole, extension);
    let start = name_start(platform, whole);
    let part = with_extension(platform, whole, extension);
    assert(start >= root.len());
    assert forall|i: int| 0 <= i < root.len() implies root[i] == #[trigger] part[i] by {
        assert(part.take(start)[i] == whole.take(start)[i]);
        assert(whole.subrange(0, root.len() as int)[i] == root[i]);
    }
    assert(root =~= part.subrange(0, root.len() as int));
}

fn is_separator(platform: Platform, c: char) -> (r: bool)
    ensures
        r == separates(platform, c),
{
    match platform {
        Platform::Unix => c == '/',
        Platform::Windows => c == '/' || c == '\\',
    }
}

/// The place where the last component of `chars[..to]` begins.
fn last_component(platform: Platform, chars: &Vec<char>, to: usize) -> (r: usize)
    requires
        to <= chars@.len(),
    ensures
        r <= to,
        r == last_separator(platform, chars@.take(to as int)) + 1,
{
    let mut i: usize = to;
    while i > 0 && !is_separator(platform, chars[i - 1])
        invariant
            i <= to <= chars@.len(),
            last_separator(platform, chars@.take(i as int)) == last_separator(platform, chars@.take(to as int)),
        decreases i,
    {
        proof {
            let s = chars@.take(i as int);
            assert(s.drop_last() =~= chars@.take(i - 1));
            assert(s.last() == chars@[i - 1]);
        }
        i = i - 1;
    }
    proof {
        if i > 0 {
            assert(chars@.take(i as int).last() == chars@[i - 1]);
        }
    }
    i
}

/// The place behind the last dot in `chars[from..to]`, or `from` where there is
/// none.
fn last_dot(chars: &Vec<char>, from: usize, to: usize) -> (r: usize)
    requires
        from <= to <= chars@.len(),
    ensures
        from <= r <= to,
        r - from == last_index(chars@.subrange(from as int, to as int), '.') + 1,
{
    let mut i: usize = to;
    while i > from && chars[i - 1] != '.'
        invariant
            from <= i <= to <= chars@.len(),
            last_index(chars@.subrange(from as int, i as int), '.') == last_index(
                chars@.subrange(from as int, to as int),
                '.',
            ),
        decreases i,
    {
        proof {
            let s = chars@.subrange(from as int, i as int);
            assert(s.drop_last() =~= chars@.subrange(from as int, i - 1));
            assert(s.last() == chars@[i - 1]);
        }
        i = i - 1;
    }
    proof {
        let s = chars@.subrange(from as int, i as int);
        if i > from {
            assert(s.last() == '.');
        }
    }
    i
}

/// A path with the extension of its last component replaced.
pub fn replace_extension(platform: Platform, path: &str, extension: &str) -> (r: String)
    ensures
        r@ == with_extension(platform, path@, extension@),
{
    let chars = chars_of(path);
    let mut end: usize = chars.len();
    assert(path@.take(end as int) =~= path@);
    while end > 1 && (is_separator(platform, chars[end - 1]) || (chars[end - 1] == '.' && is_separator(
        platform,
        chars[end - 2],
    )))
        invariant
            chars@ == path@,
            end <= chars@.len(),
            tidy_end(platform, path@.take(end as int)) == tidy_end(platform, path@),
        decreases end,
    {
        assert(path@.take(end as int).drop_last() =~= path@.take(end - 1));
        end = end - 1;
    }
    let ghost tidy = path@.take(end as int);
    assert(tidy_end(platform, path@) == tidy);
    let start: usize = last_component(platform, &chars, end);
    let name = text_between(&chars, start, end);
    assert(name@ =~= file_name(platform, path@));
    if name.as_str().is_empty() || same_text(name.as_str(), ".") || same_text(name.as_str(), "..") {
        return path.to_owned();
    }
    let dot: usize = last_dot(&chars, start, end);
    assert(chars@.subrange(start as int, end as int) =~= name@);
    let stem_end: usize = if dot - start <= 1 {
        end
    } else {
        dot - 1
    };
    let mut out = text_between(&chars, 0, stem_end);
    assert(out@ =~= tidy.take(name_start(platform, path@) + stem_length(name@)));
    out.append(".");
    out.append(extension);
    out
}

/// A path leads out of its directory exactly if it begins with a slash, if a part of it
/// between slashes is `..`, or if, on Windows, it begins with a letter and a colon. On
/// Windows a backslash counts as a slash.
pub proof fn law_when_a_path_leads_out(path: Seq<char>)
    ensures
        leads_out(Platform::Unix, path) <==> (path.len() > 0 && path[0] == '/') || pieces(path, '/').contains(".."@),
        ({
            let with_slashes = replaced(path, '\\', '/');
            leads_out(Platform::Windows, path) <==> {
                ||| path.len() > 0 && (path[0] == '/' || path[0] == '\\')
                ||| pieces(with_slashes, '/').contains(".."@)
                ||| path.len() >= 2 && path[1] == ':' && ('a' <= path[0] <= 'z' || 'A' <= path[0] <= 'Z')
            }
        }),
{
}

/// A file goes one separator below the directory, which gets none where it ends in one.
/// On Windows its path is written with backslashes, without empty parts and lone dots.
pub proof fn law_where_a_file_goes(root: Seq<char>, relative: Seq<char>)
    requires
        relative.len() > 0,
        relative[0] != '/',
    ensures
        root.len() > 0 && root.last() != '/' ==> join_on(Platform::Unix, root, relative) == root + seq!['/'] + relative,
        root.len() > 0 && root.last() == '/' ==> join_on(Platform::Unix, root, relative) == root + relative,
        ({
            let names = pieces(replaced(relative, '\\', '/'), '/').filter(
                |part: Seq<char>| part.len() > 0 && part != "."@,
            );
            &&& names.len() > 0 && root.len() > 0 && root.last() != '/' && root.last() != '\\' ==> join_on(
                Platform::Windows,
                root,
                relative,
            ) == root + seq!['\\'] + joined(names, seq!['\\'])
            &&& names.len() > 0 && root.len() > 0 && (root.last() == '/' || root.last() == '\\') ==> join_on(
                Platform::Windows,
                root,
                relative,
            ) == root + joined(names, seq!['\\'])
            &&& names.len() == 0 ==> join_on(Platform::Windows, root, relative) == root
        }),
{
    reveal_strlit("/");
    reveal_strlit("\\");
    assert("/"@ =~= seq!['/']);
    assert("\\"@ =~= seq!['\\']);
    let wanted = |part: Seq<char>| part.len() > 0 && part != "."@;
    let named = |part: Seq<char>| names_something(part);
    assert(wanted =~= named);
    assert(root + glue(Platform::Windows, root) =~= if root.len() > 0 && root.last() != '/' && root.last() != '\\' {
        root + seq!['\\']
    } else {
        root
    });
}

proof fn lemma_last_dot_before(stem: Seq<char>, rest: Seq<char>)
    requires
        !rest.contains('.'),
    ensures
        last_index(stem + seq!['.'] + rest, '.') == stem.len(),
        stem.len() == 0 ==> last_index(rest, '.') == -1,
    decreases rest.len(),
{
    let name = stem + seq!['.'] + rest;
    if rest.len() == 0 {
        assert(name.last() == '.');
    } else {
        let short = rest.drop_last();
        assert(rest.contains(rest.last()));
        assert(!short.contains('.')) by {
            assert(forall|i: int| 0 <= i < short.len() ==> short[i] == rest[i]);
        }
        assert(name.drop_last() =~= stem + seq!['.'] + short);
        assert(name.last() == rest.last());
        lemma_last_dot_before(stem, short);
    }
}

proof fn lemma_extension_of_name(platform: Platform, directory: Seq<char>, name: Seq<char>, extension: Seq<char>)
    requires
        directory.len() == 0 || separates(platform, directory.last()),
        names_something(name),
        name != ".."@,
        forall|i: int| 0 <= i < name.len() ==> !separates(platform, #[trigger] name[i]),
    ensures
        with_extension(platform, directory + name, extension) == directory + name.take(stem_length(name)) + "."@
            + extension,
        0 <= stem_length(name) <= name.len(),
{
    let whole = directory + name;
    lemma_plain_name(platform, name);
    assert(!separates(platform, name[name.len() - 1]));
    if name.len() > 1 {
        assert(!separates(platform, name[name.len() - 2]));
    }
    assert(tidy_end(platform, name) == name);
    lemma_last_separator_bounds(platform, name);
    if last_separator(platform, name) >= 0 {
        lemma_separator_stands_there(platform, name);
    }
    lemma_tidy_end_of_suffix(platform, directory, name);
    lemma_file_name_of_suffix(platform, directory, name);
    lemma_last_index_bounds(name, '.');
    assert(file_name(platform, whole) =~= name);
    assert(whole.take(directory.len() + stem_length(name)) =~= directory + name.take(stem_length(name)));
}

/// Replacing the extension of a file keeps its directory and the part of its name before
/// the last dot, and puts the new extension behind that dot. A name without a dot gets
/// one, and so does a name that has its only dot in front.
pub proof fn law_only_the_extension_is_replaced(
    platform: Platform,
    directory: Seq<char>,
    stem: Seq<char>,
    rest: Seq<char>,
    extension: Seq<char>,
)
    requires
        directory.len() == 0 || directory.last() == '/' || (platform == Platform::Windows && directory.last() == '\\'),
        stem.len() > 0,
        stem != "."@,
        !stem.contains('/') && !stem.contains('\\'),
        !rest.contains('/') && !rest.contains('\\') && !rest.contains('.'),
    ensures
        with_extension(platform, directory + (stem + seq!['.'] + rest), extension) == directory + stem + seq!['.']
            + extension,
        !stem.contains('.') ==> with_extension(platform, directory + stem, extension) == directory + stem + seq!['.']
            + extension,
        !stem.contains('.') ==> with_extension(platform, directory + (seq!['.'] + stem), extension) == directory + (seq![
            '.',
        ] + stem) + seq!['.'] + extension,
{
    reveal_strlit(".");
    reveal_strlit("..");
    assert("."@ =~= seq!['.']);
    let dotted = stem + seq!['.'] + rest;
    assert forall|i: int| 0 <= i < stem.len() implies stem[i] != '/' && stem[i] != '\\' by {
        assert(stem.contains(stem[i]));
    }
    assert forall|i: int| 0 <= i < rest.len() implies rest[i] != '/' && rest[i] != '\\' by {
        assert(rest.contains(rest[i]));
    }
    assert forall|i: int| 0 <= i < dotted.len() implies !separates(platform, #[trigger] dotted[i]) by {}
    assert(dotted != ".."@) by {
        if dotted == ".."@ {
            assert(".."@.len() == 2);
            assert(dotted.len() == stem.len() + 1 + rest.len());
            assert(stem.len() == 1 && rest.len() == 0);
            assert(stem[0] == dotted[0]);
            assert(stem =~= "."@);
        }
    }
    assert(names_something(dotted)) by {
        assert(dotted.len() >= 2);
    }
    lemma_last_dot_before(stem, rest);
    lemma_extension_of_name(platform, directory, dotted, extension);
    assert(dotted.take(stem.len() as int) =~= stem);
    if !stem.contains('.') {
        assert(stem != ".."@) by {
            assert(stem.contains(stem[0]));
        }
        lemma_last_dot_before(Seq::empty(), stem);
        lemma_extension_of_name(platform, directory, stem, extension);
        assert(stem.take(stem.len() as int) =~= stem);
        let hidden = seq!['.'] + stem;
        assert(Seq::<char>::empty() + seq!['.'] + stem =~= hidden);
        assert(hidden[1] == stem[0] && stem.contains(stem[0]));
        assert(hidden != ".."@);
        assert forall|i: int| 0 <= i < hidden.len() implies !separates(platform, #[trigger] hidden[i]) by {}
        lemma_extension_of_name(platform, directory, hidden, extension);
        assert(hidden.take(hidden.len() as int) =~= hidden);
    }
}

/// A path that begins at the root stands for itself below any directory.
pub proof fn law_an_absolute_path_stands_for_itself(base: Seq<char>, path: Seq<char>)
    ensures
        path.len() > 0 && path[0] == '/' ==> join(base, path) == path,
        absolute(path) <==> path.len() > 0 && path[0] == '/',
        climbs(path) <==> pieces(path, '/').contains(".."@),
{
}

/// Separators at the end of a path do not count when its extension is replaced, and a
/// path that ends in a parent directory has none.
pub proof fn law_separators_at_the_end_do_not_count(path: Seq<char>, extension: Seq<char>)
    requires
        path.len() > 0,
        path.last() != '/',
        path.len() > 1 ==> path.last() != '.',
    ensures
        with_extension(Platform::Unix, path.push('/'), extension) == if has_file_name(Platform::Unix, path) {
            with_extension(Platform::Unix, path, extension)
        } else {
            path.push('/')
        },
{
    assert(path.push('/').drop_last() =~= path);
    assert(tidy_end(Platform::Unix, path.push('/')) == tidy_end(Platform::Unix, path));
}

} // verus!
