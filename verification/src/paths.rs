//! Paths as the index stores them: components joined by `/`, and what lies below a path.
use crate::text::{
    concat, from_chars, has_prefix, length_before, occurs_folded_at, replace_char, same_text,
    split_pieces, to_ascii_upper, to_chars,
};
use vstd::prelude::*;

verus! {

/// A path in the form in which it is stored.
pub open spec fn storage_path(path: Seq<char>) -> Seq<char> {
    crate::text::replaced(path, '\\', '/')
}

/// A path in the form in which it is stored.
pub fn path_to_storage(path: &str) -> (result: String)
    ensures
        result@ == storage_path(path@),
{
    replace_char(path, '\\', '/')
}

/// Whether a path begins with the letter of a drive.
pub open spec fn on_drive(path: Seq<char>) -> bool {
    path.len() >= 2 && crate::text::ascii_letter(path[0]) && path[1] == ':'
}

/// How much of a stored path says on which drive or share it lies: `C:`, or `//server/share`.
pub open spec fn prefix_length(path: Seq<char>) -> int {
    if on_drive(path) {
        2
    } else if path.len() >= 2 && path[0] == '/' && path[1] == '/' {
        let server = crate::text::span(path.skip(2), crate::text::equals('/')) as int;
        let share = crate::text::span(path.skip(3 + server), crate::text::equals('/')) as int;
        if server > 0 && 3 + server < path.len() && share > 0 {
            3 + server + share
        } else {
            0
        }
    } else {
        0
    }
}

/// How much of a stored path says on which drive or share it lies.
fn length_of_prefix(path: &[char]) -> (length: usize)
    ensures
        length == prefix_length(path@),
        length <= path@.len(),
{
    if path.len() < 2 {
        return 0;
    }
    if crate::text::is_ascii_letter(path[0]) && path[1] == ':' {
        return 2;
    }
    if path[0] != '/' || path[1] != '/' {
        return 0;
    }
    assert(path@.skip(2) =~= path@.subrange(2, path@.len() as int));
    let server: usize = length_before(vstd::slice::slice_subrange(path, 2, path.len()), '/');
    if server == 0 || path.len() - 2 - server <= 1 {
        return 0;
    }
    assert(path@.skip(3 + server) =~= path@.subrange(3 + server, path@.len() as int));
    let share: usize = length_before(
        vstd::slice::slice_subrange(path, 3 + server, path.len()),
        '/',
    );
    if share == 0 {
        0
    } else {
        3 + server + share
    }
}

/// The path of an entry below its root. A path that names a drive or a share of its own stands for
/// itself, and one that begins with a separator keeps only the drive or share of the root.
pub open spec fn full_path(root: Seq<char>, relative_path: Seq<char>) -> Seq<char> {
    let root = storage_path(root);
    let path = storage_path(relative_path);
    if prefix_length(path) > 0 {
        path
    } else if path.len() > 0 && path[0] == '/' {
        root.take(prefix_length(root)) + path
    } else if root.len() == 0 || root.last() == '/' || (on_drive(root) && root.len() == 2) {
        root + path
    } else {
        root.push('/') + path
    }
}

/// The path of an entry below its root.
pub fn join_storage(root: &str, relative_path: &str) -> (path: String)
    ensures
        path@ == full_path(root@, relative_path@),
{
    let root = path_to_storage(root);
    let path = path_to_storage(relative_path);
    let root_chars = to_chars(root.as_str());
    let path_chars = to_chars(path.as_str());
    if length_of_prefix(path_chars.as_slice()) > 0 {
        return path;
    }
    if path_chars.len() > 0 && path_chars[0] == '/' {
        let kept: usize = length_of_prefix(root_chars.as_slice());
        assert(root@.take(kept as int) =~= root_chars@.subrange(0, kept as int));
        let prefix = from_chars(vstd::slice::slice_subrange(root_chars.as_slice(), 0, kept));
        return concat(prefix.as_str(), path.as_str());
    }
    let count: usize = root_chars.len();
    let bare: bool = count == 2 && crate::text::is_ascii_letter(root_chars[0]) && root_chars[1]
        == ':';
    let mut result = root;
    if count > 0 && root_chars[count - 1] != '/' && !bare {
        result.push('/');
    }
    result.append(path.as_str());
    result
}

/// Where an entry lies in the tree of its root, whatever its names are.
pub open spec fn place_below(root: Seq<char>, relative_path: Seq<char>) -> Seq<char> {
    if root.len() > 0 && root.last() == '/' {
        root + relative_path
    } else {
        root.push('/') + relative_path
    }
}

/// Where an entry lies in the tree of its root.
pub fn place_of(root: &str, relative_path: &str) -> (place: String)
    ensures
        place@ == place_below(root@, relative_path@),
{
    let chars = to_chars(root);
    let mut place = root.to_owned();
    if !(chars.len() > 0 && chars[chars.len() - 1] == '/') {
        place.push('/');
    }
    place.append(relative_path);
    place
}

/// What lies in the tree of a root lies within the root.
pub proof fn law_root_holds_its_tree(root: Seq<char>, relative_path: Seq<char>)
    ensures
        within(place_below(root, relative_path), root),
{
    let place = place_below(root, relative_path);
    let prefix = if root.len() > 0 && root.last() == '/' {
        root
    } else {
        root.push('/')
    };
    assert(place.subrange(0, prefix.len() as int) =~= prefix);
}

/// Whether a path is `boundary` or lies below it.
pub open spec fn within(path: Seq<char>, boundary: Seq<char>) -> bool {
    let prefix = if boundary.len() > 0 && boundary.last() == '/' {
        boundary
    } else {
        boundary.push('/')
    };
    path == boundary || crate::text::starts_with(path, prefix)
}

/// Whether a path is `boundary` or lies below it.
pub fn is_within(path: &str, boundary: &str) -> (yes: bool)
    ensures
        yes == within(path@, boundary@),
{
    if same_text(path, boundary) {
        return true;
    }
    let mut prefix = to_chars(boundary);
    if !(prefix.len() > 0 && prefix[prefix.len() - 1] == '/') {
        prefix.push('/');
    }
    has_prefix(to_chars(path).as_slice(), prefix.as_slice())
}

/// What a path says about the drive: the letter of a root of the form `C:/`.
pub open spec fn root_letter(root: Seq<char>) -> Option<char> {
    if root.len() == 3 && crate::text::ascii_letter(root[0]) && root[1] == ':' && root[2] == '/' {
        Some(crate::text::ascii_upper(root[0]))
    } else {
        None
    }
}

/// The letter of a root of the form `C:/`.
pub fn volume_from_ntfs_root(root: &str) -> (volume: Option<char>)
    ensures
        volume == root_letter(root@),
{
    let chars = to_chars(root);
    if chars.len() == 3 && crate::text::is_ascii_letter(chars[0]) && chars[1] == ':' && chars[2]
        == '/' {
        Some(to_ascii_upper(chars[0]))
    } else {
        None
    }
}

/// The root of a volume as it is stored.
pub open spec fn volume_root(volume: char) -> Seq<char> {
    seq![volume, ':', '/']
}

/// The root of a volume as it is stored.
pub fn root_of_volume(volume: char) -> (root: String)
    ensures
        root@ == volume_root(volume),
{
    let mut root = String::new();
    root.push(volume);
    root.push(':');
    root.push('/');
    assert(root@ =~= volume_root(volume));
    root
}

/// The name of a volume in messages.
pub open spec fn volume_name(volume: char) -> Seq<char> {
    seq![volume, ':']
}

/// The name of a volume in messages.
pub fn name_of_volume(volume: char) -> (name: String)
    ensures
        name@ == volume_name(volume),
{
    let mut name = String::new();
    name.push(volume);
    name.push(':');
    assert(name@ =~= volume_name(volume));
    name
}

// ---------------------------------------------------------------------------
// Components
// ---------------------------------------------------------------------------

/// Whether a name can be one component of a path.
pub open spec fn valid_component(name: Seq<char>) -> bool {
    &&& name.len() > 0
    &&& name != "."@
    &&& name != ".."@
    &&& !name.contains('/')
    &&& !name.contains('\\')
    &&& !name.contains('\0')
}

/// Whether a path below the root consists of components that can stand in a path.
pub open spec fn valid_relative_path(path: Seq<char>) -> bool {
    &&& path.len() > 0
    &&& forall|i: int|
        0 <= i < crate::text::pieces(path, '/').len() ==> valid_component(
            #[trigger] crate::text::pieces(path, '/')[i],
        )
}

fn valid_component_chars(name: &[char]) -> (valid: bool)
    ensures
        valid == valid_component(name@),
{
    proof {
        reveal_strlit(".");
        reveal_strlit("..");
    }
    if name.len() == 0 {
        return false;
    }
    if name.len() == 1 && name[0] == '.' {
        assert(name@ =~= "."@);
        return false;
    }
    if name.len() == 2 && name[0] == '.' && name[1] == '.' {
        assert(name@ =~= ".."@);
        return false;
    }
    assert(name@ != "."@ && name@ != ".."@);
    let mut i: usize = 0;
    while i < name.len()
        invariant
            i <= name.len(),
            forall|j: int|
                0 <= j < i ==> name@[j] != '/' && name@[j] != '\\' && #[trigger] name@[j] != '\0',
        decreases name.len() - i,
    {
        if name[i] == '/' || name[i] == '\\' || name[i] == '\0' {
            assert(name@.contains(name@[i as int]));
            return false;
        }
        i += 1;
    }
    true
}

/// Whether a name can be one component of a path.
pub fn valid_ntfs_component(name: &str) -> (valid: bool)
    ensures
        valid == valid_component(name@),
{
    valid_component_chars(to_chars(name).as_slice())
}

/// Whether a path below the root consists of components that can stand in a path.
pub fn valid_ntfs_relative_path(path: &str) -> (valid: bool)
    ensures
        valid == valid_relative_path(path@),
{
    let chars = to_chars(path);
    if chars.len() == 0 {
        return false;
    }
    let parts = split_pieces(chars.as_slice(), '/');
    let ghost all = crate::text::pieces(path@, '/');
    let mut i: usize = 0;
    while i < parts.len()
        invariant
            i <= parts.len(),
            all == crate::text::pieces(path@, '/'),
            crate::text::views(parts@) == all,
            forall|j: int| 0 <= j < i ==> valid_component(#[trigger] all[j]),
        decreases parts.len() - i,
    {
        assert(all[i as int] == parts@[i as int]@);
        if !valid_ntfs_component(parts[i].as_str()) {
            return false;
        }
        i += 1;
    }
    true
}

// ---------------------------------------------------------------------------
// Comparing
// ---------------------------------------------------------------------------

/// The names among the parts of a path, empty ones and those that stand for the same directory left
/// out.
pub open spec fn names_among(parts: Seq<Seq<char>>) -> Seq<Seq<char>>
    decreases parts.len(),
{
    if parts.len() == 0 {
        Seq::empty()
    } else {
        let front = names_among(parts.drop_last());
        if parts.last().len() == 0 || parts.last() == "."@ {
            front
        } else {
            front.push(parts.last())
        }
    }
}

/// What stands before the names of a path: the letter of its drive in upper case, and separators.
pub open spec fn path_head(path: Seq<char>) -> Seq<char> {
    let drive = if on_drive(path) {
        seq![crate::text::ascii_upper(path[0]), ':']
    } else {
        Seq::empty()
    };
    let rest = path.skip(drive.len() as int);
    if rest.len() == 0 || rest[0] != '/' {
        drive
    } else if rest.len() >= 2 && rest[1] == '/' && !on_drive(path) {
        drive + seq!['/', '/']
    } else {
        drive.push('/')
    }
}

/// The names in a path. A `.` with which it begins counts as one.
pub open spec fn path_names(path: Seq<char>) -> Seq<Seq<char>> {
    let rest = path.skip(
        if on_drive(path) {
            2
        } else {
            0
        },
    );
    let parts = crate::text::pieces(rest, '/');
    if parts[0] == "."@ {
        seq!["."@] + names_among(parts)
    } else {
        names_among(parts)
    }
}

/// The form in which paths are compared, name by name: the letter of the drive is taken without
/// case, and it does not matter how often a separator is repeated, whether one stands at the end,
/// and whether names are mixed with `.`.
pub open spec fn compared_path(path: Seq<char>) -> Seq<char> {
    let path = storage_path(path);
    path_head(path) + crate::text::joined(path_names(path), "/"@)
}

/// Whether two paths are on the same drive and otherwise the same.
pub open spec fn same_but_for_drive_case(a: Seq<char>, b: Seq<char>) -> bool {
    a == b || (on_drive(a) && on_drive(b) && crate::text::ascii_upper(a[0])
        == crate::text::ascii_upper(b[0]) && a.skip(1) == b.skip(1))
}

pub(crate) proof fn lemma_drive_case(a: Seq<char>, b: Seq<char>)
    requires
        same_but_for_drive_case(a, b),
    ensures
        compared_path(a) == compared_path(b),
{
    if a != b {
        assert(a.skip(1).len() == b.skip(1).len());
        assert forall|i: int| 1 <= i < a.len() implies a[i] == b[i] by {
            assert(a.skip(1)[i - 1] == a[i]);
            assert(b.skip(1)[i - 1] == b[i]);
            assert(a.skip(1)[i - 1] == b.skip(1)[i - 1]);
        }
        let one = storage_path(a);
        let other = storage_path(b);
        assert(one.skip(2) =~= other.skip(2));
        assert(path_head(one) =~= path_head(other));
    }
}

fn names_of_parts(parts: &Vec<String>) -> (names: Vec<String>)
    ensures
        crate::text::views(names@) == names_among(crate::text::views(parts@)),
{
    proof {
        reveal_strlit(".");
    }
    let ghost all = crate::text::views(parts@);
    let mut names: Vec<String> = Vec::new();
    let mut i: usize = 0;
    assert(crate::text::views(names@) =~= names_among(all.take(0)));
    while i < parts.len()
        invariant
            i <= parts.len(),
            all == crate::text::views(parts@),
            crate::text::views(names@) == names_among(all.take(i as int)),
        decreases parts.len() - i,
    {
        let ghost before = names@;
        assert(all.take(i + 1).drop_last() =~= all.take(i as int));
        assert(all.take(i + 1).last() == parts@[i as int]@);
        if to_chars(parts[i].as_str()).len() > 0 && !same_text(parts[i].as_str(), ".") {
            names.push(parts[i].clone());
            assert(crate::text::views(names@) =~= crate::text::views(before).push(
                parts@[i as int]@,
            ));
        }
        i += 1;
    }
    assert(all.take(i as int) =~= all);
    names
}

/// The form in which paths are compared.
pub fn path_to_compare(path: &str) -> (result: String)
    ensures
        result@ == compared_path(path@),
{
    let chars = to_chars(path_to_storage(path).as_str());
    let ghost stored = chars@;
    let drive: bool = chars.len() >= 2 && crate::text::is_ascii_letter(chars[0]) && chars[1] == ':';
    let start: usize = if drive {
        2
    } else {
        0
    };
    let mut head = String::new();
    if drive {
        head.push(to_ascii_upper(chars[0]));
        head.push(':');
    }
    if start < chars.len() && chars[start] == '/' {
        head.push('/');
        if !drive && chars.len() >= 2 && chars[1] == '/' {
            head.push('/');
        }
    }
    assert(head@ =~= path_head(stored));
    let ghost rest = stored.skip(start as int);
    assert(rest =~= stored.subrange(start as int, stored.len() as int));
    let parts = split_pieces(
        vstd::slice::slice_subrange(chars.as_slice(), start, chars.len()),
        '/',
    );
    let mut names = names_of_parts(&parts);
    let ghost all = crate::text::views(parts@);
    let ghost found = crate::text::views(names@);
    assert(all.len() > 0);
    assert(all[0] == parts@[0]@);
    if same_text(parts[0].as_str(), ".") {
        names.insert(0, ".".to_owned());
        assert(crate::text::views(names@) =~= seq!["."@] + found);
    }
    assert(crate::text::views(names@) == path_names(stored));
    concat(head.as_str(), crate::text::join(names.as_slice(), "/").as_str())
}

proof fn lemma_names_of_both(a: Seq<Seq<char>>, b: Seq<Seq<char>>)
    ensures
        names_among(a + b) == names_among(a) + names_among(b),
    decreases b.len(),
{
    if b.len() == 0 {
        assert(a + b =~= a);
        assert(names_among(a) + names_among(b) =~= names_among(a));
    } else {
        lemma_names_of_both(a, b.drop_last());
        assert((a + b).drop_last() =~= a + b.drop_last());
        assert(names_among(a + b) =~= names_among(a) + names_among(b));
    }
}

/// Parts of which each can be a component are all names.
proof fn lemma_components_are_names(parts: Seq<Seq<char>>)
    requires
        forall|i: int| 0 <= i < parts.len() ==> valid_component(#[trigger] parts[i]),
    ensures
        names_among(parts) == parts,
    decreases parts.len(),
{
    if parts.len() > 0 {
        let front = parts.drop_last();
        assert forall|i: int| 0 <= i < front.len() implies valid_component(#[trigger] front[i]) by {
            assert(front[i] == parts[i]);
        }
        lemma_components_are_names(front);
        assert(valid_component(parts[parts.len() - 1]));
        assert(front.push(parts.last()) =~= parts);
    } else {
        assert(names_among(parts) =~= parts);
    }
}

/// Names are not empty and hold no separator where the parts hold none.
proof fn lemma_names_among(parts: Seq<Seq<char>>)
    requires
        forall|i: int| 0 <= i < parts.len() ==> !(#[trigger] parts[i]).contains('/'),
    ensures
        forall|i: int|
            0 <= i < names_among(parts).len() ==> (#[trigger] names_among(parts)[i]).len() > 0
                && !names_among(parts)[i].contains('/'),
        (exists|i: int| 0 <= i < parts.len() && #[trigger] parts[i].len() > 0 && parts[i] != "."@)
            ==> names_among(parts).len() > 0,
    decreases parts.len(),
{
    if parts.len() > 0 {
        let front = parts.drop_last();
        let last = parts.len() - 1;
        assert forall|i: int| 0 <= i < front.len() implies !(#[trigger] front[i]).contains('/') by {
            assert(front[i] == parts[i]);
        }
        lemma_names_among(front);
        assert(!parts[last].contains('/'));
        if exists|i: int| 0 <= i < parts.len() && #[trigger] parts[i].len() > 0 && parts[i] != "."@ {
            let i = choose|i: int|
                0 <= i < parts.len() && #[trigger] parts[i].len() > 0 && parts[i] != "."@;
            if i < last {
                assert(front[i].len() > 0 && front[i] != "."@);
            }
        }
    }
}

/// A path below the root is stored as it is, and does not begin with a separator.
proof fn lemma_valid_path_is_stored(path: Seq<char>)
    requires
        valid_relative_path(path),
    ensures
        storage_path(path) == path,
        path[0] != '/',
{
    let parts = crate::text::pieces(path, '/');
    crate::text::lemma_pieces(path, '/');
    assert forall|i: int| 0 <= i < parts.len() implies !(#[trigger] parts[i]).contains('\\') by {
        assert(valid_component(parts[i]));
    }
    crate::text::lemma_in_no_piece(path, '/', '\\');
    assert forall|i: int| 0 <= i < path.len() implies path[i] != '\\' by {
        assert(path.contains(path[i]));
    }
    assert(storage_path(path) =~= path);
    assert(valid_component(parts[0]));
}

/// A separator at the end of a path changes nothing about its names.
proof fn lemma_names_before_separator(path: Seq<char>)
    ensures
        names_among(crate::text::pieces(path.push('/'), '/')) == names_among(
            crate::text::pieces(path, '/'),
        ),
        crate::text::pieces(path.push('/'), '/')[0] == crate::text::pieces(path, '/')[0],
{
    let parts = crate::text::pieces(path, '/');
    let none = Seq::<char>::empty();
    crate::text::lemma_pieces(path, '/');
    crate::text::lemma_pieces_of_both(path, none, '/');
    assert(path.push('/') + none =~= path.push('/'));
    let ended = parts + crate::text::pieces(none, '/');
    assert(ended.drop_last() =~= parts);
    assert(ended.last() == none);
}

/// The names of a path that is made of another, a separator and components.
proof fn lemma_names_below(base: Seq<char>, path: Seq<char>)
    requires
        valid_relative_path(path),
    ensures
        names_among(crate::text::pieces(base.push('/') + path, '/')) == names_among(
            crate::text::pieces(base, '/'),
        ) + crate::text::pieces(path, '/'),
        crate::text::pieces(base.push('/') + path, '/')[0] == crate::text::pieces(base, '/')[0],
{
    crate::text::lemma_pieces(base, '/');
    crate::text::lemma_pieces_of_both(base, path, '/');
    lemma_names_of_both(crate::text::pieces(base, '/'), crate::text::pieces(path, '/'));
    lemma_components_are_names(crate::text::pieces(path, '/'));
}

/// What stands before the names of the path of something below a root, and its names.
proof fn lemma_parts_below(top: Seq<char>, path: Seq<char>)
    requires
        top.len() > 0,
        !(on_drive(top) && top.len() == 2),
        valid_relative_path(path),
        path[0] != '/',
    ensures
        ({
            let whole = if top.last() == '/' {
                top + path
            } else {
                top.push('/') + path
            };
            &&& path_head(whole) == path_head(top)
            &&& path_names(whole) == path_names(top) + crate::text::pieces(path, '/')
        }),
{
    let whole = if top.last() == '/' {
        top + path
    } else {
        top.push('/') + path
    };
    let start = if on_drive(top) {
        2int
    } else {
        0int
    };
    assert(on_drive(whole) == on_drive(top));
    let rest = top.skip(start);
    let base = if top.last() == '/' {
        rest.drop_last()
    } else {
        rest
    };
    assert(rest.last() == top.last());
    assert(whole.skip(start) =~= base.push('/') + path);
    assert(path_head(whole) =~= path_head(top));
    lemma_names_below(base, path);
    if top.last() == '/' {
        assert(rest =~= base.push('/'));
        lemma_names_before_separator(base);
    }
    assert(path_names(whole) =~= path_names(top) + crate::text::pieces(path, '/'));
}

/// The names of a path hold no separator. Where a path has none, it consists of what stands before
/// them, and that ends with a separator.
proof fn lemma_path_names(path: Seq<char>)
    requires
        path.len() > 0,
        !(on_drive(path) && path.len() == 2),
    ensures
        forall|i: int|
            0 <= i < path_names(path).len() ==> (#[trigger] path_names(path)[i]).len() > 0
                && !path_names(path)[i].contains('/'),
        path_names(path).len() == 0 ==> path_head(path).len() > 0 && path_head(path).last() == '/',
{
    reveal_strlit(".");
    let rest = path.skip(
        if on_drive(path) {
            2
        } else {
            0
        },
    );
    let parts = crate::text::pieces(rest, '/');
    let dot: Seq<char> = "."@;
    crate::text::lemma_pieces(rest, '/');
    lemma_names_among(parts);
    assert(dot[0] == '.');
    assert(!dot.contains('/'));
    if path_names(path).len() == 0 {
        if parts[0].len() > 0 {
            assert(parts[0] != "."@);
        }
        assert(rest[0] == '/');
    }
}

/// The path of what lies below a root is compared as the root and what lies below it.
pub proof fn law_path_below_a_root_is_compared_with_it(root: Seq<char>, relative_path: Seq<char>)
    requires
        root.len() > 0,
        !(on_drive(root) && root.len() == 2),
        !on_drive(relative_path),
        valid_relative_path(relative_path),
    ensures
        compared_path(root).len() > 0,
        within(compared_path(full_path(root, relative_path)), compared_path(root)),
        compared_path(full_path(root, relative_path)) == (if compared_path(root).last() == '/' {
            compared_path(root) + relative_path
        } else {
            compared_path(root).push('/') + relative_path
        }),
{
    reveal_strlit("/");
    let path = relative_path;
    let top = storage_path(root);
    let full = full_path(root, path);
    let slash: Seq<char> = "/"@;
    lemma_valid_path_is_stored(path);
    assert(storage_path(full) =~= full);
    lemma_parts_below(top, path);
    lemma_path_names(top);
    let names = path_names(top);
    let head = path_head(top);
    crate::text::lemma_pieces(path, '/');
    crate::text::lemma_joined_both(names, crate::text::pieces(path, '/'), slash);
    crate::text::lemma_pieces_joined(path, '/');
    assert(seq!['/'] =~= slash);
    let text = crate::text::joined(names, slash);
    let compared = compared_path(root);
    assert(compared == head + text);
    if names.len() == 0 {
        assert(compared =~= head);
        assert(compared_path(full) =~= compared + path);
    } else {
        let last = names.last();
        assert(last == names[names.len() - 1]);
        assert(last.contains(last.last()));
        crate::text::lemma_joined_ends(names, slash);
        assert(compared.last() == text.last());
        assert(compared_path(full) =~= compared.push('/') + path);
    }
    let prefix = if compared.last() == '/' {
        compared
    } else {
        compared.push('/')
    };
    assert(compared_path(full).subrange(0, prefix.len() as int) =~= prefix);
}

// ---------------------------------------------------------------------------
// Subtrees
// ---------------------------------------------------------------------------

/// Whether `path` lies below `top`, the ASCII letters of `top` taken without case.
pub open spec fn below(path: Seq<char>, top: Seq<char>) -> bool {
    crate::text::starts_with(crate::text::fold(path), crate::text::fold(top.push('/')))
}

/// Whether `path` is `top` or lies below it.
pub open spec fn in_subtree(path: Seq<char>, top: Seq<char>) -> bool {
    path == top || below(path, top)
}

/// Whether `path` is `top` or lies below it.
pub fn is_in_subtree(path: &str, top: &str) -> (yes: bool)
    ensures
        yes == in_subtree(path@, top@),
{
    if same_text(path, top) {
        return true;
    }
    let mut prefix = to_chars(top);
    prefix.push('/');
    occurs_folded_at(to_chars(path).as_slice(), prefix.as_slice(), 0)
}

/// Where a path of the subtree of `old_top` lies after that subtree has moved to `new_top`.
pub open spec fn moved_path(path: Seq<char>, old_top: Seq<char>, new_top: Seq<char>) -> Seq<char> {
    new_top + path.skip(old_top.len() as int)
}

/// Where a path of the subtree of `old_top` lies after that subtree has moved to `new_top`.
pub fn move_path(path: &str, old_top: &str, new_top: &str) -> (result: String)
    requires
        in_subtree(path@, old_top@),
    ensures
        result@ == moved_path(path@, old_top@, new_top@),
{
    let chars = to_chars(path);
    let skip: usize = to_chars(old_top).len();
    assert(skip <= chars.len());
    assert(chars@.skip(skip as int) =~= chars@.subrange(skip as int, chars@.len() as int));
    let suffix = from_chars(
        vstd::slice::slice_subrange(chars.as_slice(), skip, chars.len()),
    );
    concat(new_top, suffix.as_str())
}

} // verus!
