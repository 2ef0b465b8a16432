//! What the JSON documents say of the values they were made of.
use crate::index::ReportView;
use crate::overview::{IndexStatus, ListedView};
use crate::search::ItemView;
use crate::volume::VolumeProbe;
use vstd::prelude::*;

verus! {

// ---------------------------------------------------------------------------
// Reading from the front
// ---------------------------------------------------------------------------

/// Two texts that are the same, and whose fronts have the same length, have the same front and the
/// same rest.
proof fn lemma_cut(a: Seq<char>, b: Seq<char>, x: Seq<char>, y: Seq<char>)
    requires
        a.len() == b.len(),
        a + x == b + y,
    ensures
        a == b,
        x == y,
{
    assert(a =~= (a + x).take(a.len() as int));
    assert(b =~= (b + y).take(a.len() as int));
    assert(x =~= (a + x).skip(a.len() as int));
    assert(y =~= (b + y).skip(a.len() as int));
}

/// The truth value at the front of a text can be read off it.
proof fn lemma_bool_first(a: bool, b: bool, x: Seq<char>, y: Seq<char>)
    requires
        crate::json::bool_json(a) + x == crate::json::bool_json(b) + y,
    ensures
        a == b,
        x == y,
{
    reveal_strlit("true");
    reveal_strlit("false");
    assert((crate::json::bool_json(a) + x)[0] == crate::json::bool_json(a)[0]);
    assert((crate::json::bool_json(b) + y)[0] == crate::json::bool_json(b)[0]);
    lemma_cut(crate::json::bool_json(a), crate::json::bool_json(b), x, y);
}

/// Whether a text ends or goes on with something other than a digit.
spec fn no_digit_first(text: Seq<char>) -> bool {
    text.len() > 0 && !crate::text::is_digit(text[0])
}

/// The number at the front of a text can be read off it.
proof fn lemma_number_first(a: nat, b: nat, x: Seq<char>, y: Seq<char>)
    requires
        no_digit_first(x),
        no_digit_first(y),
        crate::text::decimal(a) + x == crate::text::decimal(b) + y,
    ensures
        a == b,
        x == y,
{
    let one = crate::text::decimal(a);
    let other = crate::text::decimal(b);
    crate::text_laws::law_numbers_are_written_in_digits(a);
    crate::text_laws::law_numbers_are_written_in_digits(b);
    crate::text::lemma_decimal(a);
    crate::text::lemma_decimal(b);
    if one.len() < other.len() {
        assert((one + x)[one.len() as int] == x[0]);
        assert((other + y)[one.len() as int] == other[one.len() as int]);
    } else if other.len() < one.len() {
        assert((one + x)[other.len() as int] == one[other.len() as int]);
        assert((other + y)[other.len() as int] == y[0]);
    }
    lemma_cut(one, other, x, y);
}

/// The number at the front of a text, with its sign, can be read off it.
proof fn lemma_signed_first(a: int, b: int, x: Seq<char>, y: Seq<char>)
    requires
        no_digit_first(x),
        no_digit_first(y),
        crate::text::signed_decimal(a) + x == crate::text::signed_decimal(b) + y,
    ensures
        a == b,
        x == y,
{
    let size = |value: int|
        if value < 0 {
            (-value) as nat
        } else {
            value as nat
        };
    crate::text_laws::law_numbers_are_written_in_digits(size(a));
    crate::text_laws::law_numbers_are_written_in_digits(size(b));
    let one = crate::text::signed_decimal(a) + x;
    let other = crate::text::signed_decimal(b) + y;
    assert(one[0] == crate::text::signed_decimal(a)[0]);
    assert(other[0] == crate::text::signed_decimal(b)[0]);
    assert((a < 0) == (one[0] == '-'));
    assert((b < 0) == (other[0] == '-'));
    if a < 0 {
        assert(one.skip(1) =~= crate::text::decimal(size(a)) + x);
        assert(other.skip(1) =~= crate::text::decimal(size(b)) + y);
    }
    lemma_number_first(size(a), size(b), x, y);
}

/// The character at the front of a quoted text can be read off it.
proof fn lemma_char_first(a: char, b: char, x: Seq<char>, y: Seq<char>)
    requires
        crate::json::json_char(a) + x == crate::json::json_char(b) + y,
    ensures
        a == b,
        x == y,
{
    let one = crate::json::json_char(a);
    let other = crate::json::json_char(b);
    let left = one + x;
    let right = other + y;
    assert(left[0] == one[0]);
    assert(right[0] == other[0]);
    if one.len() > 1 {
        assert(left[1] == one[1]);
        assert(right[1] == other[1]);
        if one.len() > 2 && other.len() > 2 {
            assert(left[4] == one[4]);
            assert(left[5] == one[5]);
            assert(right[4] == other[4]);
            assert(right[5] == other[5]);
        }
    }
    assert(a == b);
    lemma_cut(one, other, x, y);
}

/// A quoted text begins with what stands for its first character.
proof fn lemma_chars_front(first: char, rest: Seq<char>)
    ensures
        crate::json::json_chars(seq![first] + rest) == crate::json::json_char(first)
            + crate::json::json_chars(rest),
    decreases rest.len(),
{
    let whole = seq![first] + rest;
    if rest.len() == 0 {
        assert(whole.drop_last() =~= Seq::<char>::empty());
        assert(crate::json::json_chars(whole.drop_last()) =~= Seq::<char>::empty());
        assert(crate::json::json_chars(whole) =~= crate::json::json_char(first)
            + crate::json::json_chars(rest));
    } else {
        lemma_chars_front(first, rest.drop_last());
        assert(whole.drop_last() =~= seq![first] + rest.drop_last());
        assert(crate::json::json_chars(whole) =~= crate::json::json_char(first)
            + crate::json::json_chars(rest));
    }
}

/// What stands before the closing quotation mark can be read off the text.
proof fn lemma_chars_first(a: Seq<char>, b: Seq<char>, x: Seq<char>, y: Seq<char>)
    requires
        crate::json::json_chars(a) + seq!['"'] + x == crate::json::json_chars(b) + seq!['"'] + y,
    ensures
        a == b,
        x == y,
    decreases a.len(),
{
    let left = crate::json::json_chars(a) + seq!['"'] + x;
    let right = crate::json::json_chars(b) + seq!['"'] + y;
    if a.len() > 0 {
        lemma_chars_front(a[0], a.skip(1));
        assert(a =~= seq![a[0]] + a.skip(1));
        assert(left =~= crate::json::json_char(a[0]) + (crate::json::json_chars(a.skip(1))
            + seq!['"'] + x));
        assert(left[0] == crate::json::json_char(a[0])[0]);
        assert(left[0] != '"');
    } else {
        assert(left[0] == '"');
    }
    if b.len() > 0 {
        lemma_chars_front(b[0], b.skip(1));
        assert(b =~= seq![b[0]] + b.skip(1));
        assert(right =~= crate::json::json_char(b[0]) + (crate::json::json_chars(b.skip(1))
            + seq!['"'] + y));
        assert(right[0] == crate::json::json_char(b[0])[0]);
        assert(right[0] != '"');
    } else {
        assert(right[0] == '"');
    }
    if a.len() > 0 {
        lemma_char_first(
            a[0],
            b[0],
            crate::json::json_chars(a.skip(1)) + seq!['"'] + x,
            crate::json::json_chars(b.skip(1)) + seq!['"'] + y,
        );
        lemma_chars_first(a.skip(1), b.skip(1), x, y);
        assert(a =~= b);
    } else {
        lemma_cut(seq!['"'], seq!['"'], x, y);
        assert(a =~= b);
    }
}

/// The quoted text at the front of a text can be read off it.
proof fn lemma_quoted_first(a: Seq<char>, b: Seq<char>, x: Seq<char>, y: Seq<char>)
    requires
        crate::json::json_quoted(a) + x == crate::json::json_quoted(b) + y,
    ensures
        a == b,
        x == y,
{
    let left = crate::json::json_chars(a) + seq!['"'] + x;
    let right = crate::json::json_chars(b) + seq!['"'] + y;
    assert(crate::json::json_quoted(a) + x =~= seq!['"'] + left);
    assert(crate::json::json_quoted(b) + y =~= seq!['"'] + right);
    lemma_cut(seq!['"'], seq!['"'], left, right);
    lemma_chars_first(a, b, x, y);
}

/// A quoted text can be read back: two texts that are quoted alike are the same.
pub proof fn law_quoted_text_is_read_back(a: Seq<char>, b: Seq<char>)
    requires
        crate::json::json_quoted(a) == crate::json::json_quoted(b),
    ensures
        a == b,
{
    let rest = Seq::<char>::empty();
    assert(crate::json::json_quoted(a) + rest =~= crate::json::json_quoted(a));
    assert(crate::json::json_quoted(b) + rest =~= crate::json::json_quoted(b));
    lemma_quoted_first(a, b, rest, rest);
}

// ---------------------------------------------------------------------------
// Objects
// ---------------------------------------------------------------------------

/// A value that is a member of an object.
enum Value {
    Flag(bool),
    Number(int),
    Text(Seq<char>),
    Nothing,
}

/// How a value is written.
spec fn written(value: Value) -> Seq<char> {
    match value {
        Value::Flag(flag) => crate::json::bool_json(flag),
        Value::Number(number) => crate::text::signed_decimal(number),
        Value::Text(text) => crate::json::json_quoted(text),
        Value::Nothing => "null"@,
    }
}

/// Only a truth value begins with `t` or `f`, only a text with a quotation mark, and only a lack
/// of a value with `n`.
proof fn lemma_written_start(value: Value)
    ensures
        written(value).len() > 0,
        (value is Flag) == (written(value)[0] == 't' || written(value)[0] == 'f'),
        (value is Text) == (written(value)[0] == '"'),
        (value is Nothing) == (written(value)[0] == 'n'),
{
    reveal_strlit("true");
    reveal_strlit("false");
    reveal_strlit("null");
    if let Value::Number(number) = value {
        crate::text_laws::law_numbers_are_written_in_digits(
            if number < 0 {
                (-number) as nat
            } else {
                number as nat
            },
        );
    }
}

/// The value at the front of a text can be read off it.
proof fn lemma_value_first(a: Value, b: Value, x: Seq<char>, y: Seq<char>)
    requires
        no_digit_first(x),
        no_digit_first(y),
        written(a) + x == written(b) + y,
    ensures
        a == b,
        x == y,
{
    lemma_written_start(a);
    lemma_written_start(b);
    assert((written(a) + x)[0] == written(a)[0]);
    assert((written(b) + y)[0] == written(b)[0]);
    match (a, b) {
        (Value::Flag(left), Value::Flag(right)) => lemma_bool_first(left, right, x, y),
        (Value::Number(left), Value::Number(right)) => lemma_signed_first(left, right, x, y),
        (Value::Text(left), Value::Text(right)) => lemma_quoted_first(left, right, x, y),
        (Value::Nothing, Value::Nothing) => lemma_cut(written(a), written(b), x, y),
        _ => {},
    }
}

/// The first of these keys, each with its value behind it. A key is held with what stands before
/// it.
spec fn members(keys: Seq<Seq<char>>, values: Seq<Value>, count: int) -> Seq<char>
    decreases count,
{
    if count <= 1 {
        keys[0] + written(values[0])
    } else {
        members(keys, values, count - 1) + keys[count - 1] + written(values[count - 1])
    }
}

/// These keys from one on, each with its value behind it, and what follows them.
spec fn members_before(
    keys: Seq<Seq<char>>,
    values: Seq<Value>,
    from: int,
    count: int,
    rest: Seq<char>,
) -> Seq<char>
    decreases count - from,
{
    if from >= count {
        rest
    } else {
        keys[from] + (written(values[from]) + members_before(keys, values, from + 1, count, rest))
    }
}

/// The last of the members may be counted to what follows.
proof fn lemma_last_member(
    keys: Seq<Seq<char>>,
    values: Seq<Value>,
    from: int,
    count: int,
    rest: Seq<char>,
)
    requires
        0 <= from < count,
    ensures
        members_before(keys, values, from, count, rest) == members_before(
            keys,
            values,
            from,
            count - 1,
            keys[count - 1] + (written(values[count - 1]) + rest),
        ),
    decreases count - from,
{
    if from < count - 1 {
        lemma_last_member(keys, values, from + 1, count, rest);
    } else {
        assert(members_before(keys, values, from + 1, count, rest) == rest);
    }
}

/// Members may be read from the front.
proof fn lemma_members(keys: Seq<Seq<char>>, values: Seq<Value>, count: int, rest: Seq<char>)
    requires
        count >= 1,
    ensures
        members(keys, values, count) + rest == members_before(keys, values, 0, count, rest),
    decreases count,
{
    let tail = keys[count - 1] + (written(values[count - 1]) + rest);
    if count == 1 {
        assert(members(keys, values, count) + rest =~= tail);
        assert(members_before(keys, values, 1, 1, rest) == rest);
    } else {
        assert(members(keys, values, count) + rest =~= members(keys, values, count - 1) + tail);
        lemma_members(keys, values, count - 1, tail);
        lemma_last_member(keys, values, 0, count, rest);
    }
}

/// Whether no key can be taken for a part of a number.
spec fn keys_stand_apart(keys: Seq<Seq<char>>) -> bool {
    forall|i: int| 0 <= i < keys.len() ==> no_digit_first(#[trigger] keys[i])
}

/// The members at the front of a text can be read off it, one by one.
proof fn lemma_members_read(
    keys: Seq<Seq<char>>,
    a: Seq<Value>,
    b: Seq<Value>,
    from: int,
    x: Seq<char>,
    y: Seq<char>,
)
    requires
        keys_stand_apart(keys),
        no_digit_first(x),
        no_digit_first(y),
        0 <= from <= keys.len(),
        members_before(keys, a, from, keys.len() as int, x) == members_before(
            keys,
            b,
            from,
            keys.len() as int,
            y,
        ),
    ensures
        forall|i: int| from <= i < keys.len() ==> #[trigger] a[i] == b[i],
        x == y,
    decreases keys.len() - from,
{
    let count = keys.len() as int;
    if from < count {
        let left = members_before(keys, a, from + 1, count, x);
        let right = members_before(keys, b, from + 1, count, y);
        lemma_cut(keys[from], keys[from], written(a[from]) + left, written(b[from]) + right);
        if from + 1 < count {
            assert(no_digit_first(keys[from + 1]));
            assert(left[0] == keys[from + 1][0]);
            assert(right[0] == keys[from + 1][0]);
        } else {
            assert(left == x);
            assert(right == y);
        }
        lemma_value_first(a[from], b[from], left, right);
        lemma_members_read(keys, a, b, from + 1, x, y);
    }
}

/// The object at the front of a text can be read off it.
proof fn lemma_object_first(
    keys: Seq<Seq<char>>,
    a: Seq<Value>,
    b: Seq<Value>,
    x: Seq<char>,
    y: Seq<char>,
)
    requires
        keys_stand_apart(keys),
        keys.len() >= 1,
        a.len() == keys.len(),
        b.len() == keys.len(),
        members(keys, a, keys.len() as int) + "}"@ + x == members(keys, b, keys.len() as int) + "}"@
            + y,
    ensures
        a == b,
        x == y,
{
    let count = keys.len() as int;
    reveal_strlit("}");
    lemma_members(keys, a, count, "}"@ + x);
    lemma_members(keys, b, count, "}"@ + y);
    assert(members(keys, a, count) + "}"@ + x =~= members(keys, a, count) + ("}"@ + x));
    assert(members(keys, b, count) + "}"@ + y =~= members(keys, b, count) + ("}"@ + y));
    lemma_members_read(keys, a, b, 0, "}"@ + x, "}"@ + y);
    lemma_cut("}"@, "}"@, x, y);
    assert(a =~= b);
}

/// The members come one behind the other, each value behind the key of that value.
proof fn lemma_has_member(
    keys: Seq<Seq<char>>,
    values: Seq<Value>,
    count: int,
    i: int,
    rest: Seq<char>,
)
    requires
        0 <= i < count,
    ensures
        crate::text::contains(
            members(keys, values, count) + rest,
            keys[i] + written(values[i]),
        ),
    decreases count,
{
    let whole = members(keys, values, count) + rest;
    let member = keys[i] + written(values[i]);
    if count > 1 && i < count - 1 {
        let tail = keys[count - 1] + (written(values[count - 1]) + rest);
        lemma_has_member(keys, values, count - 1, i, tail);
        assert(whole =~= members(keys, values, count - 1) + tail);
    } else {
        let before = if count > 1 {
            members(keys, values, count - 1)
        } else {
            Seq::empty()
        };
        let at = before.len() as int;
        assert(whole.subrange(at, at + member.len()) =~= member);
        assert(crate::text::occurs_at(whole, member, at));
    }
}

/// An object that begins with a truth value begins with the right one.
proof fn lemma_starts_with_flag(key: Seq<char>, flag: bool, rest: Seq<char>)
    ensures
        crate::text::starts_with(
            key + crate::json::bool_json(flag) + rest,
            key + crate::json::bool_json(flag),
        ),
        !crate::text::starts_with(
            key + crate::json::bool_json(flag) + rest,
            key + crate::json::bool_json(!flag),
        ),
{
    reveal_strlit("true");
    reveal_strlit("false");
    let whole = key + crate::json::bool_json(flag) + rest;
    let right = key + crate::json::bool_json(flag);
    let wrong = key + crate::json::bool_json(!flag);
    assert(whole.subrange(0, right.len() as int) =~= right);
    if crate::text::starts_with(whole, wrong) {
        assert(whole.subrange(0, wrong.len() as int)[key.len() as int] == wrong[key.len() as int]);
    }
}

/// An object that ends with a truth value ends with the right one.
proof fn lemma_ends_with_flag(front: Seq<char>, key: Seq<char>, flag: bool)
    ensures
        crate::text::ends_with(
            front + key + crate::json::bool_json(flag) + "}"@,
            key + crate::json::bool_json(flag) + "}"@,
        ),
        !crate::text::ends_with(
            front + key + crate::json::bool_json(flag) + "}"@,
            key + crate::json::bool_json(!flag) + "}"@,
        ),
{
    reveal_strlit("true");
    reveal_strlit("false");
    reveal_strlit("}");
    let whole = front + key + crate::json::bool_json(flag) + "}"@;
    let right = key + crate::json::bool_json(flag) + "}"@;
    let wrong = key + crate::json::bool_json(!flag) + "}"@;
    assert(whole.subrange(whole.len() - right.len(), whole.len() as int) =~= right);
    if crate::text::ends_with(whole, wrong) {
        let tail = whole.subrange(whole.len() - wrong.len(), whole.len() as int);
        assert(tail[wrong.len() - 5] == wrong[wrong.len() - 5]);
        assert(tail[wrong.len() - 5] == whole[whole.len() - 5]);
    }
}

// ---------------------------------------------------------------------------
// Listed roots
// ---------------------------------------------------------------------------

/// The keys of a listed root, each with what stands before it.
spec fn root_keys() -> Seq<Seq<char>> {
    seq![
        "{\"complete\":"@,
        ",\"last_scan_unix_ms\":"@,
        ",\"root\":"@,
        ",\"skipped_entries\":"@,
        ",\"uses_ntfs_usn\":"@,
    ]
}

/// The values of a listed root, in the order of their keys.
spec fn root_values(root: ListedView) -> Seq<Value> {
    seq![
        Value::Flag(root.complete),
        Value::Number(root.last_scan_unix_ms as int),
        Value::Text(root.root),
        Value::Number(root.skipped_entries as int),
        Value::Flag(root.uses_ntfs_usn),
    ]
}

/// No key of a listed root can be taken for a part of a number.
proof fn lemma_root_keys()
    ensures
        keys_stand_apart(root_keys()),
        root_keys().len() == 5,
{
    reveal_strlit("{\"complete\":");
    reveal_strlit(",\"last_scan_unix_ms\":");
    reveal_strlit(",\"root\":");
    reveal_strlit(",\"skipped_entries\":");
    reveal_strlit(",\"uses_ntfs_usn\":");
}

/// A listed root is written as an object.
proof fn lemma_root_object(root: ListedView)
    ensures
        crate::json::root_json(root) == members(root_keys(), root_values(root), 5)
            + "}"@,
{
    reveal_with_fuel(members, 5);
}

/// The listed root at the front of a text can be read off it.
proof fn lemma_root_first(a: ListedView, b: ListedView, x: Seq<char>, y: Seq<char>)
    requires
        crate::json::root_json(a) + x == crate::json::root_json(b) + y,
    ensures
        a == b,
        x == y,
{
    lemma_root_keys();
    lemma_root_object(a);
    lemma_root_object(b);
    let left = root_values(a);
    let right = root_values(b);
    lemma_object_first(root_keys(), left, right, x, y);
    assert(left[0] == right[0]);
    assert(left[1] == right[1]);
    assert(left[2] == right[2]);
    assert(left[3] == right[3]);
    assert(left[4] == right[4]);
}

/// The JSON of a listed root gives back the root: two of them with the same JSON are the same.
pub proof fn law_listed_root_is_read_back(a: ListedView, b: ListedView)
    requires
        crate::json::root_json(a) == crate::json::root_json(b),
    ensures
        a == b,
{
    let rest = Seq::<char>::empty();
    assert(crate::json::root_json(a) + rest =~= crate::json::root_json(a));
    assert(crate::json::root_json(b) + rest =~= crate::json::root_json(b));
    lemma_root_first(a, b, rest, rest);
}

/// The JSON of a listed root says under each name what that name says: `complete` is true exactly
/// if the root is complete, `uses_ntfs_usn` exactly if it is followed, and the others hold the
/// path, the time of the last scan and the number of entries that were skipped.
pub proof fn law_listed_root_says_each_thing_under_its_name(root: ListedView)
    ensures
        ({
            let text = crate::json::root_json(root);
            &&& crate::text::starts_with(text, "{\"complete\":true"@) <==> root.complete
            &&& crate::text::starts_with(text, "{\"complete\":false"@) <==> !root.complete
            &&& crate::text::ends_with(text, ",\"uses_ntfs_usn\":true}"@) <==> root.uses_ntfs_usn
            &&& crate::text::ends_with(text, ",\"uses_ntfs_usn\":false}"@) <==> !root.uses_ntfs_usn
            &&& crate::text::contains(
                text,
                ",\"last_scan_unix_ms\":"@ + crate::text::signed_decimal(
                    root.last_scan_unix_ms as int,
                ),
            )
            &&& crate::text::contains(
                text,
                ",\"root\":"@ + crate::json::json_quoted(root.root),
            )
            &&& crate::text::contains(
                text,
                ",\"skipped_entries\":"@ + crate::text::decimal(root.skipped_entries),
            )
        }),
{
    lemma_root_object(root);
    let keys = root_keys();
    let values = root_values(root);
    lemma_members(keys, values, 5, "}"@);
    let rest = members_before(keys, values, 1, 5, "}"@);
    assert(crate::json::root_json(root) =~= keys[0] + crate::json::bool_json(root.complete) + rest);
    lemma_starts_with_flag(keys[0], root.complete, rest);
    reveal_strlit("{\"complete\":");
    reveal_strlit("true");
    reveal_strlit("false");
    reveal_strlit("{\"complete\":true");
    reveal_strlit("{\"complete\":false");
    assert("{\"complete\":"@ + "true"@ =~= "{\"complete\":true"@);
    assert("{\"complete\":"@ + "false"@ =~= "{\"complete\":false"@);
    let front = members(keys, values, 4);
    assert(crate::json::root_json(root) == front + keys[4] + crate::json::bool_json(
        root.uses_ntfs_usn,
    ) + "}"@) by {
        reveal_with_fuel(members, 2);
    }
    lemma_ends_with_flag(front, keys[4], root.uses_ntfs_usn);
    reveal_strlit("}");
    reveal_strlit(",\"uses_ntfs_usn\":");
    reveal_strlit(",\"uses_ntfs_usn\":true}");
    reveal_strlit(",\"uses_ntfs_usn\":false}");
    assert(",\"uses_ntfs_usn\":"@ + "true"@ + "}"@ =~= ",\"uses_ntfs_usn\":true}"@);
    assert(",\"uses_ntfs_usn\":"@ + "false"@ + "}"@ =~= ",\"uses_ntfs_usn\":false}"@);
    lemma_has_member(keys, values, 5, 1, "}"@);
    lemma_has_member(keys, values, 5, 2, "}"@);
    lemma_has_member(keys, values, 5, 3, "}"@);
}


// ---------------------------------------------------------------------------
// Results
// ---------------------------------------------------------------------------

/// The keys of a result, each with what stands before it.
spec fn item_keys() -> Seq<Seq<char>> {
    seq![
        "{\"is_directory\":"@,
        ",\"modified_unix_ms\":"@,
        ",\"name\":"@,
        ",\"path\":"@,
        ",\"size_bytes\":"@,
    ]
}

/// The values of a result, in the order of their keys.
spec fn item_values(item: ItemView) -> Seq<Value> {
    seq![
        Value::Flag(item.is_directory),
        match item.modified_unix_ms {
            Some(time) => Value::Number(time as int),
            None => Value::Nothing,
        },
        Value::Text(item.name),
        Value::Text(item.path),
        Value::Number(item.size_bytes as int),
    ]
}

/// No key of a result can be taken for a part of a number.
proof fn lemma_item_keys()
    ensures
        keys_stand_apart(item_keys()),
        item_keys().len() == 5,
{
    reveal_strlit("{\"is_directory\":");
    reveal_strlit(",\"modified_unix_ms\":");
    reveal_strlit(",\"name\":");
    reveal_strlit(",\"path\":");
    reveal_strlit(",\"size_bytes\":");
}

/// A result is written as an object.
proof fn lemma_item_object(item: ItemView)
    ensures
        crate::json::item_json(item) == members(item_keys(), item_values(item), 5)
            + "}"@,
{
    reveal_with_fuel(members, 5);
}

/// The result at the front of a text can be read off it.
proof fn lemma_item_first(a: ItemView, b: ItemView, x: Seq<char>, y: Seq<char>)
    requires
        crate::json::item_json(a) + x == crate::json::item_json(b) + y,
    ensures
        a == b,
        x == y,
{
    lemma_item_keys();
    lemma_item_object(a);
    lemma_item_object(b);
    let left = item_values(a);
    let right = item_values(b);
    lemma_object_first(item_keys(), left, right, x, y);
    assert(left[0] == right[0]);
    assert(left[1] == right[1]);
    assert(left[2] == right[2]);
    assert(left[3] == right[3]);
    assert(left[4] == right[4]);
}

/// The JSON of a result gives back the result: two of them with the same JSON are the same.
pub proof fn law_result_is_read_back(a: ItemView, b: ItemView)
    requires
        crate::json::item_json(a) == crate::json::item_json(b),
    ensures
        a == b,
{
    let rest = Seq::<char>::empty();
    assert(crate::json::item_json(a) + rest =~= crate::json::item_json(a));
    assert(crate::json::item_json(b) + rest =~= crate::json::item_json(b));
    lemma_item_first(a, b, rest, rest);
}

/// The JSON of a result says under each name what that name says: whether it is a directory, when
/// it was changed, its name, its path and its size.
pub proof fn law_result_says_each_thing_under_its_name(item: ItemView)
    ensures
        ({
            let text = crate::json::item_json(item);
            &&& crate::text::starts_with(text, "{\"is_directory\":true"@) <==> item.is_directory
            &&& crate::text::starts_with(text, "{\"is_directory\":false"@) <==> !item.is_directory
            &&& match item.modified_unix_ms {
                Some(time) => crate::text::contains(
                    text,
                    ",\"modified_unix_ms\":"@ + crate::text::signed_decimal(time as int),
                ),
                None => crate::text::contains(text, ",\"modified_unix_ms\":"@ + "null"@),
            }
            &&& crate::text::contains(
                text,
                ",\"name\":"@ + crate::json::json_quoted(item.name),
            )
            &&& crate::text::contains(
                text,
                ",\"path\":"@ + crate::json::json_quoted(item.path),
            )
            &&& crate::text::contains(
                text,
                ",\"size_bytes\":"@ + crate::text::decimal(item.size_bytes),
            )
        }),
{
    lemma_item_object(item);
    let keys = item_keys();
    let values = item_values(item);
    lemma_members(keys, values, 5, "}"@);
    let rest = members_before(keys, values, 1, 5, "}"@);
    assert(crate::json::item_json(item) =~= keys[0] + crate::json::bool_json(
        item.is_directory,
    ) + rest);
    lemma_starts_with_flag(keys[0], item.is_directory, rest);
    reveal_strlit("{\"is_directory\":");
    reveal_strlit("true");
    reveal_strlit("false");
    reveal_strlit("{\"is_directory\":true");
    reveal_strlit("{\"is_directory\":false");
    assert("{\"is_directory\":"@ + "true"@ =~= "{\"is_directory\":true"@);
    assert("{\"is_directory\":"@ + "false"@ =~= "{\"is_directory\":false"@);
    lemma_has_member(keys, values, 5, 1, "}"@);
    lemma_has_member(keys, values, 5, 2, "}"@);
    lemma_has_member(keys, values, 5, 3, "}"@);
    lemma_has_member(keys, values, 5, 4, "}"@);
}


// ---------------------------------------------------------------------------
// Reports
// ---------------------------------------------------------------------------

/// The keys of a report, each with what stands before it.
spec fn report_keys() -> Seq<Seq<char>> {
    seq![
        "{\"complete\":"@,
        ",\"elapsed_ms\":"@,
        ",\"indexed_directories\":"@,
        ",\"indexed_files\":"@,
        ",\"root\":"@,
        ",\"skipped_entries\":"@,
    ]
}

/// The values of a report, in the order of their keys.
spec fn report_values(report: ReportView) -> Seq<Value> {
    seq![
        Value::Flag(report.complete),
        Value::Number(report.elapsed_ms as int),
        Value::Number(report.indexed_directories as int),
        Value::Number(report.indexed_files as int),
        Value::Text(report.root),
        Value::Number(report.skipped_entries as int),
    ]
}

/// No key of a report can be taken for a part of a number.
proof fn lemma_report_keys()
    ensures
        keys_stand_apart(report_keys()),
        report_keys().len() == 6,
{
    reveal_strlit("{\"complete\":");
    reveal_strlit(",\"elapsed_ms\":");
    reveal_strlit(",\"indexed_directories\":");
    reveal_strlit(",\"indexed_files\":");
    reveal_strlit(",\"root\":");
    reveal_strlit(",\"skipped_entries\":");
}

/// A report is written as an object.
proof fn lemma_report_object(report: ReportView)
    ensures
        crate::json::report_json(report) == members(report_keys(), report_values(report), 6)
            + "}"@,
{
    reveal_with_fuel(members, 6);
}

/// The report at the front of a text can be read off it.
proof fn lemma_report_first(a: ReportView, b: ReportView, x: Seq<char>, y: Seq<char>)
    requires
        crate::json::report_json(a) + x == crate::json::report_json(b) + y,
    ensures
        a == b,
        x == y,
{
    lemma_report_keys();
    lemma_report_object(a);
    lemma_report_object(b);
    let left = report_values(a);
    let right = report_values(b);
    lemma_object_first(report_keys(), left, right, x, y);
    assert(left[0] == right[0]);
    assert(left[1] == right[1]);
    assert(left[2] == right[2]);
    assert(left[3] == right[3]);
    assert(left[4] == right[4]);
    assert(left[5] == right[5]);
}

/// The JSON of a report gives back the report: two of them with the same JSON are the same.
pub proof fn law_report_is_read_back(a: ReportView, b: ReportView)
    requires
        crate::json::report_json(a) == crate::json::report_json(b),
    ensures
        a == b,
{
    let rest = Seq::<char>::empty();
    assert(crate::json::report_json(a) + rest =~= crate::json::report_json(a));
    assert(crate::json::report_json(b) + rest =~= crate::json::report_json(b));
    lemma_report_first(a, b, rest, rest);
}

/// The JSON of a report says under each name what that name says.
pub proof fn law_report_says_each_thing_under_its_name(report: ReportView)
    ensures
        ({
            let text = crate::json::report_json(report);
            &&& crate::text::starts_with(text, "{\"complete\":true"@) <==> report.complete
            &&& crate::text::starts_with(text, "{\"complete\":false"@) <==> !report.complete
            &&& crate::text::contains(
                text,
                ",\"elapsed_ms\":"@ + crate::text::decimal(report.elapsed_ms as nat),
            )
            &&& crate::text::contains(
                text,
                ",\"indexed_directories\":"@ + crate::text::decimal(report.indexed_directories),
            )
            &&& crate::text::contains(
                text,
                ",\"indexed_files\":"@ + crate::text::decimal(report.indexed_files),
            )
            &&& crate::text::contains(
                text,
                ",\"skipped_entries\":"@ + crate::text::decimal(report.skipped_entries),
            )
            &&& crate::text::contains(
                text,
                ",\"root\":"@ + crate::json::json_quoted(report.root),
            )
        }),
{
    lemma_report_object(report);
    let keys = report_keys();
    let values = report_values(report);
    lemma_members(keys, values, 6, "}"@);
    let rest = members_before(keys, values, 1, 6, "}"@);
    assert(crate::json::report_json(report) =~= keys[0] + crate::json::bool_json(
        report.complete,
    ) + rest);
    lemma_starts_with_flag(keys[0], report.complete, rest);
    reveal_strlit("{\"complete\":");
    reveal_strlit("true");
    reveal_strlit("false");
    reveal_strlit("{\"complete\":true");
    reveal_strlit("{\"complete\":false");
    assert("{\"complete\":"@ + "true"@ =~= "{\"complete\":true"@);
    assert("{\"complete\":"@ + "false"@ =~= "{\"complete\":false"@);
    lemma_has_member(keys, values, 6, 1, "}"@);
    lemma_has_member(keys, values, 6, 2, "}"@);
    lemma_has_member(keys, values, 6, 3, "}"@);
    lemma_has_member(keys, values, 6, 4, "}"@);
    lemma_has_member(keys, values, 6, 5, "}"@);
}


// ---------------------------------------------------------------------------
// Status
// ---------------------------------------------------------------------------

/// The keys of a status, each with what stands before it.
spec fn status_keys() -> Seq<Seq<char>> {
    seq![
        "{\"incomplete_roots\":"@,
        ",\"indexed_directories\":"@,
        ",\"indexed_files\":"@,
        ",\"roots\":"@,
    ]
}

/// The values of a status, in the order of their keys.
spec fn status_values(status: IndexStatus) -> Seq<Value> {
    seq![
        Value::Number(status.incomplete_roots as int),
        Value::Number(status.indexed_directories as int),
        Value::Number(status.indexed_files as int),
        Value::Number(status.roots as int),
    ]
}

/// No key of a status can be taken for a part of a number.
proof fn lemma_status_keys()
    ensures
        keys_stand_apart(status_keys()),
        status_keys().len() == 4,
{
    reveal_strlit("{\"incomplete_roots\":");
    reveal_strlit(",\"indexed_directories\":");
    reveal_strlit(",\"indexed_files\":");
    reveal_strlit(",\"roots\":");
}

/// A status is written as an object.
proof fn lemma_status_object(status: IndexStatus)
    ensures
        crate::json::status_json(status) == members(status_keys(), status_values(status), 4)
            + "}"@,
{
    reveal_with_fuel(members, 4);
}

/// The status at the front of a text can be read off it.
proof fn lemma_status_first(a: IndexStatus, b: IndexStatus, x: Seq<char>, y: Seq<char>)
    requires
        crate::json::status_json(a) + x == crate::json::status_json(b) + y,
    ensures
        a == b,
        x == y,
{
    lemma_status_keys();
    lemma_status_object(a);
    lemma_status_object(b);
    let left = status_values(a);
    let right = status_values(b);
    lemma_object_first(status_keys(), left, right, x, y);
    assert(left[0] == right[0]);
    assert(left[1] == right[1]);
    assert(left[2] == right[2]);
    assert(left[3] == right[3]);
}

/// The JSON of a status gives back the status: two of them with the same JSON are the same.
pub proof fn law_status_is_read_back(a: IndexStatus, b: IndexStatus)
    requires
        crate::json::status_json(a) == crate::json::status_json(b),
    ensures
        a == b,
{
    let rest = Seq::<char>::empty();
    assert(crate::json::status_json(a) + rest =~= crate::json::status_json(a));
    assert(crate::json::status_json(b) + rest =~= crate::json::status_json(b));
    lemma_status_first(a, b, rest, rest);
}

/// The JSON of a status says under each name what that name says.
pub proof fn law_status_says_each_thing_under_its_name(status: IndexStatus)
    ensures
        ({
            let text = crate::json::status_json(status);
            &&& crate::text::contains(
                text,
                "{\"incomplete_roots\":"@ + crate::text::decimal(status.incomplete_roots as nat),
            )
            &&& crate::text::contains(
                text,
                ",\"indexed_directories\":"@ + crate::text::decimal(status.indexed_directories as nat),
            )
            &&& crate::text::contains(
                text,
                ",\"indexed_files\":"@ + crate::text::decimal(status.indexed_files as nat),
            )
            &&& crate::text::contains(
                text,
                ",\"roots\":"@ + crate::text::decimal(status.roots as nat),
            )
        }),
{
    lemma_status_object(status);
    let keys = status_keys();
    let values = status_values(status);
    lemma_has_member(keys, values, 4, 0, "}"@);
    lemma_has_member(keys, values, 4, 1, "}"@);
    lemma_has_member(keys, values, 4, 2, "}"@);
    lemma_has_member(keys, values, 4, 3, "}"@);
}


// ---------------------------------------------------------------------------
// Probes
// ---------------------------------------------------------------------------

/// The keys of a probe, each with what stands before it.
spec fn probe_keys() -> Seq<Seq<char>> {
    seq![
        "{\"first_batch_records\":"@,
        ",\"first_usn\":"@,
        ",\"journal_id\":"@,
        ",\"next_usn\":"@,
        ",\"volume\":"@,
    ]
}

/// The values of a probe, in the order of their keys.
spec fn probe_values(probe: VolumeProbe) -> Seq<Value> {
    seq![
        Value::Number(probe.first_batch_records as int),
        Value::Number(probe.first_usn as int),
        Value::Number(probe.journal_id as int),
        Value::Number(probe.next_usn as int),
        Value::Text(seq![probe.volume]),
    ]
}

/// No key of a probe can be taken for a part of a number.
proof fn lemma_probe_keys()
    ensures
        keys_stand_apart(probe_keys()),
        probe_keys().len() == 5,
{
    reveal_strlit("{\"first_batch_records\":");
    reveal_strlit(",\"first_usn\":");
    reveal_strlit(",\"journal_id\":");
    reveal_strlit(",\"next_usn\":");
    reveal_strlit(",\"volume\":");
}

/// A probe is written as an object.
proof fn lemma_probe_object(probe: VolumeProbe)
    ensures
        crate::json::probe_json(probe) == members(probe_keys(), probe_values(probe), 5)
            + "}"@,
{
    reveal_with_fuel(members, 5);
}

/// The probe at the front of a text can be read off it.
proof fn lemma_probe_first(a: VolumeProbe, b: VolumeProbe, x: Seq<char>, y: Seq<char>)
    requires
        crate::json::probe_json(a) + x == crate::json::probe_json(b) + y,
    ensures
        a == b,
        x == y,
{
    lemma_probe_keys();
    lemma_probe_object(a);
    lemma_probe_object(b);
    let left = probe_values(a);
    let right = probe_values(b);
    lemma_object_first(probe_keys(), left, right, x, y);
    assert(left[0] == right[0]);
    assert(left[1] == right[1]);
    assert(left[2] == right[2]);
    assert(left[3] == right[3]);
    assert(left[4] == right[4]);
}

/// The JSON of a probe gives back the probe: two of them with the same JSON are the same.
pub proof fn law_probe_is_read_back(a: VolumeProbe, b: VolumeProbe)
    requires
        crate::json::probe_json(a) == crate::json::probe_json(b),
    ensures
        a == b,
{
    let rest = Seq::<char>::empty();
    assert(crate::json::probe_json(a) + rest =~= crate::json::probe_json(a));
    assert(crate::json::probe_json(b) + rest =~= crate::json::probe_json(b));
    lemma_probe_first(a, b, rest, rest);
}

/// The JSON of a probe says under each name what that name says.
pub proof fn law_probe_says_each_thing_under_its_name(probe: VolumeProbe)
    ensures
        ({
            let text = crate::json::probe_json(probe);
            &&& crate::text::contains(
                text,
                "{\"first_batch_records\":"@ + crate::text::decimal(probe.first_batch_records as nat),
            )
            &&& crate::text::contains(
                text,
                ",\"first_usn\":"@ + crate::text::signed_decimal(probe.first_usn as int),
            )
            &&& crate::text::contains(
                text,
                ",\"journal_id\":"@ + crate::text::decimal(probe.journal_id as nat),
            )
            &&& crate::text::contains(
                text,
                ",\"next_usn\":"@ + crate::text::signed_decimal(probe.next_usn as int),
            )
            &&& crate::text::contains(
                text,
                ",\"volume\":"@ + crate::json::json_quoted(seq![probe.volume]),
            )
        }),
{
    lemma_probe_object(probe);
    let keys = probe_keys();
    let values = probe_values(probe);
    lemma_has_member(keys, values, 5, 0, "}"@);
    lemma_has_member(keys, values, 5, 1, "}"@);
    lemma_has_member(keys, values, 5, 2, "}"@);
    lemma_has_member(keys, values, 5, 3, "}"@);
    lemma_has_member(keys, values, 5, 4, "}"@);
}


// ---------------------------------------------------------------------------
// Lists
// ---------------------------------------------------------------------------

/// Whether a text can be told apart from another whatever follows the two.
spec fn told_apart(a: Seq<char>, b: Seq<char>) -> bool {
    forall|x: Seq<char>, y: Seq<char>| #[trigger] (a + x) == #[trigger] (b + y) ==> a == b
}

/// A list begins with its first value.
proof fn lemma_joined_front(values: Seq<Seq<char>>)
    requires
        values.len() > 1,
    ensures
        crate::text::joined(values, ","@) == values[0] + ","@ + crate::text::joined(
            values.skip(1),
            ","@,
        ),
{
    let first = values.take(1);
    crate::text::lemma_joined_both(first, values.skip(1), ","@);
    assert(first + values.skip(1) =~= values);
    assert(crate::text::joined(first, ","@) == values[0]);
}

/// A list is read back, where its values begin with a brace and can be told apart.
proof fn lemma_list_first(a: Seq<Seq<char>>, b: Seq<Seq<char>>, x: Seq<char>, y: Seq<char>)
    requires
        forall|i: int| 0 <= i < a.len() ==> (#[trigger] a[i]).len() > 0 && a[i][0] == '{',
        forall|i: int| 0 <= i < b.len() ==> (#[trigger] b[i]).len() > 0 && b[i][0] == '{',
        forall|i: int, j: int|
            0 <= i < a.len() && 0 <= j < b.len() ==> told_apart(#[trigger] a[i], #[trigger] b[j]),
        crate::text::joined(a, ","@) + "]"@ + x == crate::text::joined(b, ","@) + "]"@ + y,
    ensures
        a == b,
        x == y,
    decreases a.len(),
{
    reveal_strlit(",");
    reveal_strlit("]");
    let left = crate::text::joined(a, ","@) + "]"@ + x;
    let right = crate::text::joined(b, ","@) + "]"@ + y;
    let tail = |values: Seq<Seq<char>>, z: Seq<char>|
        if values.len() > 1 {
            ","@ + (crate::text::joined(values.skip(1), ","@) + "]"@ + z)
        } else {
            "]"@ + z
        };
    if a.len() > 1 {
        lemma_joined_front(a);
    }
    if b.len() > 1 {
        lemma_joined_front(b);
    }
    if a.len() > 0 {
        assert(left =~= a[0] + tail(a, x));
        assert(left[0] == '{');
    } else {
        assert(left =~= "]"@ + x);
        assert(left[0] == ']');
    }
    if b.len() > 0 {
        assert(right =~= b[0] + tail(b, y));
        assert(right[0] == '{');
    } else {
        assert(right =~= "]"@ + y);
        assert(right[0] == ']');
    }
    if a.len() > 0 {
        assert(told_apart(a[0], b[0]));
        lemma_cut(a[0], b[0], tail(a, x), tail(b, y));
        assert(tail(a, x)[0] == (if a.len() > 1 {
            ','
        } else {
            ']'
        }));
        assert(tail(b, y)[0] == (if b.len() > 1 {
            ','
        } else {
            ']'
        }));
        if a.len() > 1 {
            let more = a.skip(1);
            let others = b.skip(1);
            lemma_cut(
                ","@,
                ","@,
                crate::text::joined(more, ","@) + "]"@ + x,
                crate::text::joined(others, ","@) + "]"@ + y,
            );
            assert forall|i: int, j: int|
                0 <= i < more.len() && 0 <= j < others.len() implies told_apart(
                #[trigger] more[i],
                #[trigger] others[j],
            ) by {
                assert(told_apart(a[i + 1], b[j + 1]));
            }
            lemma_list_first(more, others, x, y);
            assert(a =~= seq![a[0]] + more);
            assert(b =~= seq![b[0]] + others);
        } else {
            lemma_cut("]"@, "]"@, x, y);
            assert(a =~= b);
        }
    } else {
        lemma_cut("]"@, "]"@, x, y);
        assert(a =~= b);
    }
}

/// An object behind one key is read back where its list is.
proof fn lemma_list_object(key: Seq<char>, a: Seq<Seq<char>>, b: Seq<Seq<char>>)
    requires
        forall|i: int| 0 <= i < a.len() ==> (#[trigger] a[i]).len() > 0 && a[i][0] == '{',
        forall|i: int| 0 <= i < b.len() ==> (#[trigger] b[i]).len() > 0 && b[i][0] == '{',
        forall|i: int, j: int|
            0 <= i < a.len() && 0 <= j < b.len() ==> told_apart(#[trigger] a[i], #[trigger] b[j]),
        key + crate::json::list_json(a) + "}"@ == key + crate::json::list_json(b) + "}"@,
    ensures
        a == b,
{
    let left = crate::text::joined(a, ","@) + "]"@ + "}"@;
    let right = crate::text::joined(b, ","@) + "]"@ + "}"@;
    assert(key + crate::json::list_json(a) + "}"@ =~= (key + "["@) + left);
    assert(key + crate::json::list_json(b) + "}"@ =~= (key + "["@) + right);
    lemma_cut(key + "["@, key + "["@, left, right);
    lemma_list_first(a, b, "}"@, "}"@);
}

/// The JSON of a list of roots gives back the list: none is left out, none is added, and they stand
/// in their order.
pub proof fn law_list_of_roots_is_read_back(a: Seq<ListedView>, b: Seq<ListedView>)
    requires
        crate::json::roots_json(a) == crate::json::roots_json(b),
    ensures
        a == b,
{
    let left = Seq::new(a.len(), |i: int| crate::json::root_json(a[i]));
    let right = Seq::new(b.len(), |i: int| crate::json::root_json(b[i]));
    assert forall|root: ListedView|
        (#[trigger] crate::json::root_json(root)).len() > 0 && crate::json::root_json(
            root,
        )[0] == '{' by {
        lemma_root_keys();
        lemma_root_object(root);
        lemma_members(root_keys(), root_values(root), 5, "}"@);
        reveal_strlit("{\"complete\":");
    }
    assert forall|one: ListedView, other: ListedView| told_apart(
        #[trigger] crate::json::root_json(one),
        #[trigger] crate::json::root_json(other),
    ) by {
        assert forall|x: Seq<char>, y: Seq<char>|
            #[trigger] (crate::json::root_json(one) + x) == #[trigger] (crate::json::root_json(
                other,
            ) + y) implies crate::json::root_json(one) == crate::json::root_json(other) by {
            lemma_root_first(one, other, x, y);
        }
    }
    lemma_list_object("{\"roots\":"@, left, right);
    assert forall|i: int| 0 <= i < a.len() implies a[i] == b[i] by {
        assert(left[i] == right[i]);
        law_listed_root_is_read_back(a[i], b[i]);
    }
    assert(a =~= b);
}

/// The JSON of a list of results gives back the list: none is left out, none is added, and they
/// stand in their order.
pub proof fn law_list_of_results_is_read_back(a: Seq<ItemView>, b: Seq<ItemView>)
    requires
        crate::json::items_json(a) == crate::json::items_json(b),
    ensures
        a == b,
{
    let left = Seq::new(a.len(), |i: int| crate::json::item_json(a[i]));
    let right = Seq::new(b.len(), |i: int| crate::json::item_json(b[i]));
    assert forall|item: ItemView|
        (#[trigger] crate::json::item_json(item)).len() > 0 && crate::json::item_json(
            item,
        )[0] == '{' by {
        lemma_item_keys();
        lemma_item_object(item);
        lemma_members(item_keys(), item_values(item), 5, "}"@);
        reveal_strlit("{\"is_directory\":");
    }
    assert forall|one: ItemView, other: ItemView| told_apart(
        #[trigger] crate::json::item_json(one),
        #[trigger] crate::json::item_json(other),
    ) by {
        assert forall|x: Seq<char>, y: Seq<char>|
            #[trigger] (crate::json::item_json(one) + x) == #[trigger] (crate::json::item_json(
                other,
            ) + y) implies crate::json::item_json(one) == crate::json::item_json(other) by {
            lemma_item_first(one, other, x, y);
        }
    }
    lemma_list_object("{\"items\":"@, left, right);
    assert forall|i: int| 0 <= i < a.len() implies a[i] == b[i] by {
        assert(left[i] == right[i]);
        law_result_is_read_back(a[i], b[i]);
    }
    assert(a =~= b);
}

/// The JSON of a list of reports gives back the list: none is left out, none is added, and they
/// stand in their order.
pub proof fn law_list_of_reports_is_read_back(a: Seq<ReportView>, b: Seq<ReportView>)
    requires
        crate::json::written_reports(a) is Ok,
        crate::json::written_reports(a) == crate::json::written_reports(b),
    ensures
        a == b,
{
    let left = Seq::new(a.len(), |i: int| crate::json::report_json(a[i]));
    let right = Seq::new(b.len(), |i: int| crate::json::report_json(b[i]));
    assert forall|report: ReportView|
        (#[trigger] crate::json::report_json(report)).len() > 0 && crate::json::report_json(
            report,
        )[0] == '{' by {
        lemma_report_keys();
        lemma_report_object(report);
        lemma_members(report_keys(), report_values(report), 6, "}"@);
        reveal_strlit("{\"complete\":");
    }
    assert forall|one: ReportView, other: ReportView| told_apart(
        #[trigger] crate::json::report_json(one),
        #[trigger] crate::json::report_json(other),
    ) by {
        assert forall|x: Seq<char>, y: Seq<char>|
            #[trigger] (crate::json::report_json(one) + x) == #[trigger] (crate::json::report_json(
                other,
            ) + y) implies crate::json::report_json(one) == crate::json::report_json(other) by {
            lemma_report_first(one, other, x, y);
        }
    }
    lemma_list_object("{\"reports\":"@, left, right);
    assert forall|i: int| 0 <= i < a.len() implies a[i] == b[i] by {
        assert(left[i] == right[i]);
        law_report_is_read_back(a[i], b[i]);
    }
    assert(a =~= b);
}

// ---------------------------------------------------------------------------
// Quoting
// ---------------------------------------------------------------------------

/// Visible text is quoted as it is, but for quotation marks and backslashes, which have a backslash
/// before them; so have the letters that stand for ends of lines and tabs.
pub proof fn law_visible_text_is_quoted_as_it_is(text: Seq<char>, first: char, rest: Seq<char>)
    ensures
        (forall|i: int|
            0 <= i < text.len() ==> #[trigger] text[i] != '"' && text[i] != '\\' && text[i] >= ' ')
            ==> crate::json::json_quoted(text) == seq!['"'] + text + seq!['"'],
        crate::json::json_chars(seq![first] + rest) == crate::json::json_chars(seq![first])
            + crate::json::json_chars(rest),
        crate::json::json_chars(seq!['"']) == seq!['\\', '"'],
        crate::json::json_chars(seq!['\\']) == seq!['\\', '\\'],
        crate::json::json_chars(seq!['\n']) == seq!['\\', 'n'],
        crate::json::json_chars(seq!['\r']) == seq!['\\', 'r'],
        crate::json::json_chars(seq!['\t']) == seq!['\\', 't'],
        crate::json::json_chars(seq!['\0']) == seq!['\\', 'u', '0', '0', '0', '0'],
    decreases text.len(),
{
    let empty = Seq::<char>::empty();
    assert forall|ch: char| #[trigger] crate::json::json_chars(seq![ch]) == crate::json::json_char(
        ch,
    ) by {
        lemma_chars_front(ch, empty);
        assert(seq![ch] + empty =~= seq![ch]);
        assert(crate::json::json_chars(empty) =~= empty);
        assert(crate::json::json_char(ch) + empty =~= crate::json::json_char(ch));
    }
    lemma_chars_front(first, rest);
    if text.len() > 0 {
        let front = text.drop_last();
        law_visible_text_is_quoted_as_it_is(front, first, rest);
        if forall|i: int|
            0 <= i < text.len() ==> #[trigger] text[i] != '"' && text[i] != '\\' && text[i] >= ' ' {
            assert forall|i: int| 0 <= i < front.len() implies #[trigger] front[i] != '"'
                && front[i] != '\\' && front[i] >= ' ' by {
                assert(front[i] == text[i]);
            }
            let last = text[text.len() - 1];
            assert(crate::json::json_char(last) == seq![last]);
            let quoted = crate::json::json_quoted(front);
            assert(crate::json::json_chars(front) =~= quoted.subrange(1, quoted.len() - 1));
            assert(crate::json::json_chars(front) =~= front);
            assert(crate::json::json_chars(text) =~= text);
        }
    } else {
        assert(crate::json::json_chars(text) =~= text);
    }
}

} // verus!
