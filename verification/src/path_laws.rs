//! What holds of paths.
use vstd::prelude::*;

verus! {

/// A stored path differs from the path itself in its backslashes alone, which are slashes.
pub proof fn law_stored_path_has_slashes(a: Seq<char>, b: Seq<char>)
    ensures
        crate::paths::storage_path(a + seq!['\\'] + b) == crate::paths::storage_path(a) + seq!['/']
            + crate::paths::storage_path(b),
        !a.contains('\\') ==> crate::paths::storage_path(a) == a,
        !crate::paths::storage_path(a).contains('\\'),
{
    assert(crate::paths::storage_path(a + seq!['\\'] + b) =~= crate::paths::storage_path(a) + seq![
        '/',
    ] + crate::paths::storage_path(b));
    crate::text_laws::law_replacing_changes_one_character(a, b, '\\', '/');
}

/// The full path of what lies below a root is the root and the path with one slash between them.
pub proof fn law_full_path_has_one_slash_between(root: Seq<char>, path: Seq<char>)
    requires
        !root.contains('\\'),
        !path.contains('\\'),
        path.len() > 0,
        path[0] != '/',
        !(path.len() >= 2 && crate::text::ascii_letter(path[0]) && path[1] == ':'),
    ensures
        root.len() > 0 && root.last() != '/' && !(root.len() == 2 && crate::text::ascii_letter(
            root[0],
        ) && root[1] == ':') ==> crate::paths::full_path(root, path) == root + seq!['/'] + path,
        root.len() > 0 && root.last() == '/' ==> crate::paths::full_path(root, path) == root + path,
        root.len() == 2 && crate::text::ascii_letter(root[0]) && root[1] == ':'
            ==> crate::paths::full_path(root, path) == root + path,
        root.len() == 0 ==> crate::paths::full_path(root, path) == path,
{
    crate::text_laws::law_replacing_changes_one_character(root, path, '\\', '/');
    crate::text_laws::law_replacing_changes_one_character(path, root, '\\', '/');
    assert(root.push('/') + path =~= root + seq!['/'] + path);
    assert(root.len() == 0 ==> root + path =~= path);
}

/// A path lies within another exactly if it is that path or goes on from it behind a slash. What a
/// drive's root holds needs no slash more.
pub proof fn law_within_is_the_same_or_behind_a_slash(
    path: Seq<char>,
    boundary: Seq<char>,
    rest: Seq<char>,
)
    requires
        boundary.len() > 0,
    ensures
        crate::paths::within(boundary, boundary),
        boundary.last() != '/' ==> crate::paths::within(boundary + seq!['/'] + rest, boundary),
        boundary.last() == '/' ==> crate::paths::within(boundary + rest, boundary),
        crate::paths::within(path, boundary) && path != boundary && boundary.last() != '/' ==> path
            == boundary + seq!['/'] + path.skip(boundary.len() as int + 1),
        crate::paths::within(path, boundary) && boundary.last() == '/' ==> path == boundary
            + path.skip(boundary.len() as int),
{
    let apart = boundary + seq!['/'] + rest;
    assert(apart.subrange(0, boundary.len() as int + 1) =~= boundary.push('/'));
    assert((boundary + rest).subrange(0, boundary.len() as int) =~= boundary);
    if crate::paths::within(path, boundary) && path != boundary {
        if boundary.last() != '/' {
            let front = path.subrange(0, boundary.len() as int + 1);
            assert(front == boundary.push('/'));
            assert(path =~= front + path.skip(boundary.len() as int + 1));
            assert(boundary.push('/') =~= boundary + seq!['/']);
        } else {
            let front = path.subrange(0, boundary.len() as int);
            assert(path =~= front + path.skip(boundary.len() as int));
        }
    }
    if path == boundary {
        assert(path =~= boundary + path.skip(boundary.len() as int));
    }
}

/// The place of what lies below a root is the root and the path with one slash between them.
pub proof fn law_place_has_one_slash_between(root: Seq<char>, path: Seq<char>)
    ensures
        root.len() == 0 || root.last() != '/' ==> crate::paths::place_below(root, path) == root + seq![
            '/',
        ] + path,
        crate::paths::place_below(root.push('/'), path) == root + seq!['/'] + path,
{
    assert(root.push('/') + path =~= root + seq!['/'] + path);
}

/// The root of a volume and its letter belong together: upper case is all that is lost.
pub proof fn law_volume_has_one_root(letter: char, root: Seq<char>)
    ensures
        crate::text::ascii_letter(letter) ==> crate::paths::root_letter(
            crate::paths::volume_root(letter),
        ) == Some(crate::text::ascii_upper(letter)),
        !crate::text::ascii_letter(letter) ==> crate::paths::root_letter(
            crate::paths::volume_root(letter),
        ) is None,
        crate::paths::root_letter(root) matches Some(volume) ==> {
            &&& 'A' <= volume <= 'Z'
            &&& root == crate::paths::volume_root(root[0])
            &&& crate::text::ascii_upper(root[0]) == volume
        },
        crate::paths::volume_root(letter) == crate::paths::volume_name(letter).push('/'),
        crate::paths::volume_name(letter) == seq![letter, ':'],
{
    if crate::paths::root_letter(root) is Some {
        assert(root =~= crate::paths::volume_root(root[0]));
    }
    assert(crate::paths::volume_root(letter) =~= crate::paths::volume_name(letter).push('/'));
}

/// A name may be part of a path unless it is empty, stands for a directory itself or for the one
/// above, or holds a separator or a NUL character.
pub proof fn law_which_names_may_be_part_of_a_path(name: Seq<char>, a: Seq<char>, b: Seq<char>)
    ensures
        !crate::paths::valid_component(Seq::empty()),
        !crate::paths::valid_component(seq!['.']),
        !crate::paths::valid_component(seq!['.', '.']),
        !crate::paths::valid_component(a + seq!['/'] + b),
        !crate::paths::valid_component(a + seq!['\\'] + b),
        !crate::paths::valid_component(a + seq!['\0'] + b),
        name.len() > 2 && (forall|i: int|
            0 <= i < name.len() ==> #[trigger] name[i] != '/' && name[i] != '\\' && name[i] != '\0')
            ==> crate::paths::valid_component(name),
        0 < name.len() <= 2 && name[0] != '.' && (forall|i: int|
            0 <= i < name.len() ==> #[trigger] name[i] != '/' && name[i] != '\\' && name[i] != '\0')
            ==> crate::paths::valid_component(name),
{
    reveal_strlit(".");
    reveal_strlit("..");
    assert("."@ =~= seq!['.']);
    assert(".."@ =~= seq!['.', '.']);
    assert((a + seq!['/'] + b)[a.len() as int] == '/');
    assert((a + seq!['\\'] + b)[a.len() as int] == '\\');
    assert((a + seq!['\0'] + b)[a.len() as int] == '\0');
}

/// A path is good exactly if the path before any slash in it and the path behind that slash are,
/// and a path without a slash is good exactly if it is a good name.
pub proof fn law_path_is_good_piece_by_piece(a: Seq<char>, b: Seq<char>)
    requires
        a.len() > 0,
        b.len() > 0,
    ensures
        crate::paths::valid_relative_path(a + seq!['/'] + b) <==> crate::paths::valid_relative_path(
            a,
        ) && crate::paths::valid_relative_path(b),
        !a.contains('/') ==> (crate::paths::valid_relative_path(a)
            <==> crate::paths::valid_component(a)),
        !crate::paths::valid_relative_path(Seq::empty()),
{
    let whole = a + seq!['/'] + b;
    assert(whole =~= a.push('/') + b);
    crate::text::lemma_pieces_of_both(a, b, '/');
    let left = crate::text::pieces(a, '/');
    let right = crate::text::pieces(b, '/');
    let both = crate::text::pieces(whole, '/');
    assert(both == left + right);
    if crate::paths::valid_relative_path(whole) {
        assert forall|i: int| 0 <= i < left.len() implies crate::paths::valid_component(
            #[trigger] left[i],
        ) by {
            assert(both[i] == left[i]);
        }
        assert forall|i: int| 0 <= i < right.len() implies crate::paths::valid_component(
            #[trigger] right[i],
        ) by {
            assert(both[left.len() + i] == right[i]);
        }
    }
    if !a.contains('/') {
        let stop = crate::text::equals('/');
        assert forall|i: int| 0 <= i < a.len() implies !stop(#[trigger] a[i]) by {
            assert(a.contains(a[i]));
        }
        crate::text::lemma_span_is(a, stop, a.len());
        assert(left == seq![a]);
        assert(left[0] == a);
    }
}

/// A path lies in the subtree of another exactly if it is that path, or goes on behind a slash from
/// a path that is the same ASCII case aside. A moved path goes on in the same way from the new one.
pub proof fn law_subtree_is_the_top_and_what_goes_on_from_it(
    top: Seq<char>,
    other: Seq<char>,
    rest: Seq<char>,
    path: Seq<char>,
    new_top: Seq<char>,
)
    requires
        other.len() == top.len(),
    ensures
        crate::paths::in_subtree(top, top),
        crate::text::fold(other) == crate::text::fold(top) <==> crate::paths::in_subtree(
            other + seq!['/'] + rest,
            top,
        ),
        crate::paths::in_subtree(path, top) && path != top ==> path.len() > top.len()
            && path[top.len() as int] == '/' && crate::text::fold(path.take(top.len() as int))
            == crate::text::fold(top),
        crate::paths::moved_path(other + rest, top, new_top) == new_top + rest,
{
    let whole = other + seq!['/'] + rest;
    let prefix = crate::text::fold(top.push('/'));
    let count = top.len() as int;
    let folded = crate::text::fold(whole);
    assert(whole.len() > top.len());
    if crate::text::fold(other) == crate::text::fold(top) {
        assert forall|i: int| 0 <= i < prefix.len() implies folded[i] == prefix[i] by {
            if i < count {
                assert(folded[i] == crate::text::fold(other)[i]);
                assert(prefix[i] == crate::text::fold(top)[i]);
            }
        }
        assert(folded.subrange(0, prefix.len() as int) =~= prefix);
    }
    if crate::paths::in_subtree(whole, top) {
        assert forall|i: int| 0 <= i < count implies crate::text::fold(other)[i]
            == crate::text::fold(top)[i] by {
            assert(folded.subrange(0, prefix.len() as int)[i] == prefix[i]);
        }
        assert(crate::text::fold(other) =~= crate::text::fold(top));
    }
    if crate::paths::in_subtree(path, top) && path != top {
        let seen = crate::text::fold(path).subrange(0, prefix.len() as int);
        assert(seen == prefix);
        assert(seen[count] == crate::text::ascii_lower(path[count]));
        assert(prefix[count] == '/');
        assert forall|i: int| 0 <= i < count implies crate::text::fold(path.take(count))[i]
            == crate::text::fold(top)[i] by {
            assert(seen[i] == prefix[i]);
        }
        assert(crate::text::fold(path.take(count)) =~= crate::text::fold(top));
    }
    assert((other + rest).skip(count) =~= rest);
}

/// A path with a drive of its own needs no root, and one that begins with a slash keeps the root's
/// drive alone.
pub proof fn law_full_path_of_a_path_that_stands_alone(root: Seq<char>, path: Seq<char>)
    requires
        !root.contains('\\'),
        !path.contains('\\'),
    ensures
        path.len() >= 2 && crate::text::ascii_letter(path[0]) && path[1] == ':'
            ==> crate::paths::full_path(root, path) == path,
        path.len() >= 2 && path[0] == '/' && path[1] != '/' && root.len() >= 2
            && crate::text::ascii_letter(root[0]) && root[1] == ':' ==> crate::paths::full_path(
            root,
            path,
        ) == seq![root[0], ':'] + path,
{
    crate::text_laws::law_replacing_changes_one_character(root, path, '\\', '/');
    crate::text_laws::law_replacing_changes_one_character(path, root, '\\', '/');
    if root.len() >= 2 && root[1] == ':' {
        assert(root.take(2) =~= seq![root[0], ':']);
    }
}

/// A server and its share count as one, like a drive.
pub proof fn law_server_and_share_are_one_prefix(
    server: Seq<char>,
    share: Seq<char>,
    rest: Seq<char>,
)
    requires
        server.len() > 0,
        share.len() > 0,
        !server.contains('/'),
        !share.contains('/'),
        rest.len() == 0 || rest[0] == '/',
    ensures
        crate::paths::prefix_length(seq!['/', '/'] + server + seq!['/'] + share + rest) == 3
            + server.len() + share.len(),
{
    let path = seq!['/', '/'] + server + seq!['/'] + share + rest;
    let stop = crate::text::equals('/');
    let tail = path.skip(2);
    assert forall|i: int| 0 <= i < server.len() implies !stop(#[trigger] tail[i]) by {
        assert(tail[i] == server[i]);
        assert(server.contains(server[i]));
    }
    assert(tail[server.len() as int] == '/');
    crate::text::lemma_span_is(tail, stop, server.len());
    let end = path.skip(3 + server.len() as int);
    assert forall|i: int| 0 <= i < share.len() implies !stop(#[trigger] end[i]) by {
        assert(end[i] == share[i]);
        assert(share.contains(share[i]));
    }
    if rest.len() > 0 {
        assert(end[share.len() as int] == rest[0]);
    }
    crate::text::lemma_span_is(end, stop, share.len());
    assert(path[0] == '/' && path[1] == '/');
}

/// Where paths are compared, empty names and names that stand for the directory itself are passed
/// over, and the others stay in their order.
pub proof fn law_compared_names_leave_out_what_leads_nowhere(
    parts: Seq<Seq<char>>,
    part: Seq<char>,
)
    ensures
        part.len() == 0 || part == seq!['.'] ==> crate::paths::names_among(parts.push(part))
            == crate::paths::names_among(parts),
        part.len() > 0 && part != seq!['.'] ==> crate::paths::names_among(parts.push(part))
            == crate::paths::names_among(parts).push(part),
        crate::paths::names_among(Seq::empty()).len() == 0,
{
    reveal_strlit(".");
    assert("."@ =~= seq!['.']);
    assert(parts.push(part).drop_last() =~= parts);
}

/// Where paths are compared, a drive is its letter in upper case, and what follows the drive begins
/// with a slash exactly if it did.
pub proof fn law_compared_path_begins_with_its_drive(letter: char, rest: Seq<char>)
    requires
        'A' <= letter <= 'Z' || 'a' <= letter <= 'z',
    ensures
        ({
            let path = seq![letter, ':'] + rest;
            let head = crate::paths::path_head(path);
            &&& rest.len() > 0 && rest[0] == '/' ==> head == seq![
                crate::text::ascii_upper(letter),
                ':',
                '/',
            ]
            &&& rest.len() == 0 || rest[0] != '/' ==> head == seq![
                crate::text::ascii_upper(letter),
                ':',
            ]
            &&& crate::text::starts_with(crate::paths::compared_path(path), seq![
                crate::text::ascii_upper(letter),
                ':',
            ])
        }),
{
    let path = seq![letter, ':'] + rest;
    let drive = seq![crate::text::ascii_upper(letter), ':'];
    assert(path[0] == letter && path[1] == ':');
    assert(path.skip(2) =~= rest);
    assert(drive.push('/') =~= seq![crate::text::ascii_upper(letter), ':', '/']);
    let stored = crate::paths::storage_path(path);
    assert(stored[0] == letter && stored[1] == ':');
    let whole = crate::paths::compared_path(path);
    let head = crate::paths::path_head(stored);
    assert(head.len() >= 2 && head[0] == drive[0] && head[1] == ':');
    assert(whole.subrange(0, 2) =~= drive);
}

/// Where paths are compared, a path without a drive begins with two slashes where it did, with one
/// where it began with one, and with none else; a leading dot is kept.
pub proof fn law_compared_path_without_a_drive(rest: Seq<char>, name: Seq<char>)
    requires
        rest.len() > 0,
        rest[0] != '/',
        !crate::paths::on_drive(rest),
        !name.contains('/'),
        !name.contains('\\'),
        name.len() > 0,
        name != seq!['.'],
    ensures
        crate::paths::path_head(seq!['/', '/'] + rest) == seq!['/', '/'],
        crate::paths::path_head(seq!['/'] + rest) == seq!['/'],
        crate::paths::path_head(rest).len() == 0,
        crate::paths::path_names(seq!['.', '/'] + name) == seq![seq!['.'], name],
        crate::paths::path_names(seq!['/'] + name) == seq![name],
{
    reveal_strlit(".");
    assert("."@ =~= seq!['.']);
    let twice = seq!['/', '/'] + rest;
    let once = seq!['/'] + rest;
    assert(twice.skip(0) =~= twice && twice[0] == '/' && twice[1] == '/');
    assert(once.skip(0) =~= once && once[0] == '/' && once[1] == rest[0]);
    assert(rest.skip(0) =~= rest);
    let none = Seq::<char>::empty();
    assert(crate::paths::path_head(twice) =~= seq!['/', '/']);
    assert(crate::paths::path_head(once) =~= seq!['/']);
    let stop = crate::text::equals('/');
    assert forall|i: int| 0 <= i < name.len() implies !stop(#[trigger] name[i]) by {
        assert(name.contains(name[i]));
    }
    crate::text::lemma_span_is(name, stop, name.len());
    assert(crate::text::pieces(name, '/') == seq![name]);
    let dot = seq!['.'];
    crate::text::lemma_span_is(dot, stop, 1);
    assert(crate::text::pieces(dot, '/') == seq![dot]);
    crate::text::lemma_span_is(none, stop, 0);
    assert(crate::text::pieces(none, '/') == seq![none]);
    crate::text::lemma_pieces_of_both(dot, name, '/');
    crate::text::lemma_pieces_of_both(none, name, '/');
    let dotted = seq!['.', '/'] + name;
    let rooted = seq!['/'] + name;
    assert(dotted =~= dot.push('/') + name);
    assert(rooted =~= none.push('/') + name);
    assert(dotted.skip(0) =~= dotted && dotted[0] == '.');
    assert(rooted.skip(0) =~= rooted && rooted[0] == '/');
    let first = seq![dot] + seq![name];
    let second = seq![none] + seq![name];
    assert(first =~= seq![dot].push(name));
    assert(second =~= seq![none].push(name));
    law_compared_names_leave_out_what_leads_nowhere(Seq::empty(), dot);
    law_compared_names_leave_out_what_leads_nowhere(Seq::empty(), none);
    assert(Seq::<Seq<char>>::empty().push(dot) =~= seq![dot]);
    assert(Seq::<Seq<char>>::empty().push(none) =~= seq![none]);
    law_compared_names_leave_out_what_leads_nowhere(seq![dot], name);
    law_compared_names_leave_out_what_leads_nowhere(seq![none], name);
    assert(crate::paths::names_among(first) =~= seq![name]);
    assert(crate::paths::names_among(second) =~= seq![name]);
    assert(crate::paths::path_names(dotted) =~= seq![dot, name]);
    assert(crate::paths::path_names(rooted) =~= seq![name]);
}

} // verus!
