//! Writing a value at the place in a JSON document that a path names.
//!
//! A path is a row of steps. A step is the name of a member of an object,
//! or the index of an element of an array in square brackets; a dot parts a
//! step from a name that follows it. So `servers[0].address` names the
//! member `address` of the first element of the member `servers`.

use vstd::prelude::*;
use vstd::string::StringExecFns;
use serde_json::Value;
use crate::json_handler::{
    array_value,
    copy_of,
    distinct_keys,
    elements_of,
    is_null,
    json_elements,
    json_is_null,
    json_member,
    json_members,
    lemma_member_of,
    member_of,
    members_of,
    object_value,
};

verus! {

/// Whether `character` is a decimal digit.
pub open spec fn is_digit(character: char) -> bool {
    48 <= character as u32 <= 57
}

/// How many characters the name at the start of `path` has: those before
/// the first dot or opening bracket.
pub open spec fn name_len(path: Seq<char>) -> nat
    decreases path.len(),
{
    if path.len() == 0 || path[0] == '.' || path[0] == '[' {
        0
    } else {
        1 + name_len(path.drop_first())
    }
}

/// How many digits stand at the start of `text`.
pub open spec fn digits_len(text: Seq<char>) -> nat
    decreases text.len(),
{
    if text.len() == 0 || !is_digit(text[0]) {
        0
    } else {
        1 + digits_len(text.drop_first())
    }
}

/// The number that the decimal digits `digits` write.
pub open spec fn digits_value(digits: Seq<char>) -> nat
    decreases digits.len(),
{
    if digits.len() == 0 {
        0
    } else {
        (10 * digits_value(digits.drop_last()) + (digits.last() as u32 - 48)) as nat
    }
}

/// `path` without the dot at its start, where one stands there.
pub open spec fn after_dot(path: Seq<char>) -> Seq<char> {
    if path.len() > 0 && path[0] == '.' {
        path.drop_first()
    } else {
        path
    }
}

/// The name that `path` starts with.
pub open spec fn step_name(path: Seq<char>) -> Seq<char> {
    path.take(name_len(path) as int)
}

/// What follows the name that `path` starts with.
pub open spec fn after_name(path: Seq<char>) -> Seq<char> {
    after_dot(path.skip(name_len(path) as int))
}

/// The index that `path` starts with and what follows it, where `path`
/// starts with digits in square brackets.
pub open spec fn index_step(path: Seq<char>) -> Option<(nat, Seq<char>)> {
    let digits = digits_len(path.drop_first()) as int;
    if path.len() > 0 && path[0] == '[' && digits >= 1 && digits + 1 < path.len() && path[digits
        + 1] == ']' {
        Some((digits_value(path.subrange(1, digits + 1)), after_dot(path.skip(digits + 2))))
    } else {
        None
    }
}

/// The member under `key` of what stands at a place: none where nothing
/// stands there.
pub open spec fn member_at(origin: Option<Value>, key: Seq<char>) -> Option<Value> {
    match origin {
        Some(json) => json_member(json, key),
        None => None,
    }
}

/// Whether a member can be written to what stands at a place: nothing
/// stands there yet, or an object, or `null`.
pub open spec fn takes_members(origin: Option<Value>) -> bool {
    match origin {
        Some(json) => json_members(json) is Some || json_is_null(json),
        None => true,
    }
}

/// Whether `path` fits what stands at a place: each name meets an object,
/// `null` or nothing, and each index an array.
pub open spec fn fits(origin: Option<Value>, path: Seq<char>) -> bool
    decreases path.len(),
{
    if path.len() == 0 {
        true
    } else if path[0] == '[' {
        match (index_step(path), origin) {
            (Some((index, rest)), Some(json)) => match json_elements(json) {
                Some(items) => index >= items.len() || (rest.len() < path.len() && fits(
                    Some(items[index as int]),
                    rest,
                )),
                None => false,
            },
            _ => false,
        }
    } else {
        let rest = after_name(path);
        takes_members(origin) && rest.len() < path.len() && fits(
            member_at(origin, step_name(path)),
            rest,
        )
    }
}

/// Whether `result` is what stands at a place once `value` is written at
/// `path`. At the end of the path stands `value`. A name leads to an
/// object that has the other members of what stood there and, under the
/// name, what is written for the rest of the path. An index within an
/// array leads to the array with that one element written anew, and an
/// index beyond it to the array with `value` as one more element.
pub open spec fn written(origin: Option<Value>, path: Seq<char>, value: Value, result: Value) -> bool
    decreases path.len(),
{
    if path.len() == 0 {
        result == value
    } else if path[0] == '[' {
        match (index_step(path), origin) {
            (Some((index, rest)), Some(json)) => match json_elements(json) {
                Some(items) => if index >= items.len() {
                    json_elements(result) == Some(items.push(value))
                } else {
                    &&& json_elements(result) matches Some(after)
                    &&& after.len() == items.len()
                    &&& forall|j: int|
                        0 <= j < items.len() && j != index ==> #[trigger] after[j] == items[j]
                    &&& rest.len() < path.len()
                    &&& written(Some(items[index as int]), rest, value, after[index as int])
                },
                None => false,
            },
            _ => false,
        }
    } else {
        let name = step_name(path);
        let rest = after_name(path);
        &&& json_members(result) is Some
        &&& forall|key: Seq<char>|
            key != name ==> #[trigger] json_member(result, key) == member_at(origin, key)
        &&& json_member(result, name) matches Some(inner)
        &&& rest.len() < path.len()
        &&& written(member_at(origin, name), rest, value, inner)
    }
}

/// A name is no longer than its path, and what follows a step is shorter
/// than the path.
proof fn lemma_name_len(path: Seq<char>)
    ensures
        name_len(path) <= path.len(),
        name_len(path) < path.len() ==> path[name_len(path) as int] == '.' || path[name_len(
            path,
        ) as int] == '[',
        forall|j: int| 0 <= j < name_len(path) ==> path[j] != '.' && path[j] != '[',
        path.len() > 0 && path[0] != '[' ==> after_name(path).len() < path.len(),
    decreases path.len(),
{
    if path.len() == 0 || path[0] == '.' || path[0] == '[' {
    } else {
        let rest = path.drop_first();
        lemma_name_len(rest);
        assert forall|j: int| 0 <= j < name_len(path) implies path[j] != '.' && path[j] != '[' by {
            if j > 0 {
                assert(path[j] == rest[j - 1]);
            }
        }
        if name_len(path) < path.len() {
            assert(path[name_len(path) as int] == rest[name_len(rest) as int]);
        }
    }
}

/// Counting a name from the front: where no character before `j` ends the
/// name, the name is `j` characters and the name of what follows them.
proof fn lemma_name_len_from(path: Seq<char>, j: int)
    requires
        0 <= j <= path.len(),
        forall|i: int| 0 <= i < j ==> path[i] != '.' && path[i] != '[',
    ensures
        name_len(path) == j + name_len(path.skip(j)),
    decreases j,
{
    if j > 0 {
        lemma_name_len_from(path.drop_first(), j - 1);
        assert(path.drop_first().skip(j - 1) =~= path.skip(j));
    } else {
        assert(path.skip(0) =~= path);
    }
}

/// Counting digits from the front.
proof fn lemma_digits_len_from(text: Seq<char>, j: int)
    requires
        0 <= j <= text.len(),
        forall|i: int| 0 <= i < j ==> is_digit(text[i]),
    ensures
        digits_len(text) == j + digits_len(text.skip(j)),
    decreases j,
{
    if j > 0 {
        lemma_digits_len_from(text.drop_first(), j - 1);
        assert(text.drop_first().skip(j - 1) =~= text.skip(j));
    } else {
        assert(text.skip(0) =~= text);
    }
}

/// How many characters the name at the start of `path` has.
fn name_end(path: &str) -> (end: usize)
    ensures
        end == name_len(path@),
        end <= path@.len(),
{
    let n = path.unicode_len();
    let mut j: usize = 0;
    while j < n
        invariant
            j <= n,
            n == path@.len(),
            forall|i: int| 0 <= i < j ==> path@[i] != '.' && path@[i] != '[',
        decreases n - j,
    {
        let character = path.get_char(j);
        if character == '.' || character == '[' {
            proof {
                lemma_name_len_from(path@, j as int);
                assert(path@.skip(j as int)[0] == character);
            }
            return j;
        }
        j = j + 1;
    }
    proof {
        lemma_name_len_from(path@, j as int);
        assert(path@.skip(j as int).len() == 0);
    }
    j
}

/// Where what follows a step starts: after `at`, and after the dot that
/// stands there.
fn skip_dot(path: &str, at: usize) -> (start: usize)
    requires
        at <= path@.len(),
    ensures
        at <= start <= path@.len(),
        path@.skip(start as int) == after_dot(path@.skip(at as int)),
{
    let n = path.unicode_len();
    if at < n && path.get_char(at) == '.' {
        assert(path@.skip(at as int).drop_first() =~= path@.skip(at + 1));
        at + 1
    } else {
        at
    }
}

/// Reads the digits that follow the opening bracket at the start of `path`:
/// how many there are, and the number they write, as far as `usize` counts.
fn read_index(path: &str) -> (read: (usize, usize))
    requires
        path@.len() > 0,
    ensures
        read.0 == digits_len(path@.drop_first()),
        read.0 < path@.len(),
        read.1 == if digits_value(path@.subrange(1, read.0 + 1)) > usize::MAX {
            usize::MAX as nat
        } else {
            digits_value(path@.subrange(1, read.0 + 1))
        },
{
    let n = path.unicode_len();
    let ghost text = path@.drop_first();
    let mut digits: usize = 0;
    let mut index: usize = 0;
    assert(path@.subrange(1, 1) =~= Seq::<char>::empty());
    while digits + 1 < n
        invariant
            digits + 1 <= n,
            n == path@.len(),
            text == path@.drop_first(),
            forall|i: int| 0 <= i < digits ==> is_digit(text[i]),
            index == if digits_value(path@.subrange(1, digits + 1)) > usize::MAX {
                usize::MAX as nat
            } else {
                digits_value(path@.subrange(1, digits + 1))
            },
        decreases n - digits,
    {
        let character = path.get_char(digits + 1);
        let code: u32 = character as u32;
        if code < 48 || code > 57 {
            proof {
                lemma_digits_len_from(text, digits as int);
                assert(text.skip(digits as int)[0] == character);
            }
            return (digits, index);
        }
        proof {
            assert(text[digits as int] == character);
            assert(path@.subrange(1, digits + 2).drop_last() =~= path@.subrange(1, digits + 1));
            assert(path@.subrange(1, digits + 2).last() == character);
        }
        let digit: usize = (code - 48) as usize;
        index = if index > (usize::MAX - digit) / 10 {
            usize::MAX
        } else {
            index * 10 + digit
        };
        digits = digits + 1;
    }
    proof {
        lemma_digits_len_from(text, digits as int);
        assert(text.skip(digits as int).len() == 0);
    }
    (digits, index)
}

/// Where the member named `name` stands among `members`.
fn position(members: &Vec<(String, Value)>, name: &String) -> (at: Option<usize>)
    ensures
        match at {
            Some(i) => i < members.len() && members@[i as int].0@ == name@,
            None => forall|i: int| 0 <= i < members.len() ==> (#[trigger] members@[i]).0@ != name@,
        },
{
    let mut i: usize = 0;
    while i < members.len()
        invariant
            i <= members.len(),
            forall|j: int| 0 <= j < i ==> (#[trigger] members@[j]).0@ != name@,
        decreases members.len() - i,
    {
        if members[i].0 == *name {
            return Some(i);
        }
        i = i + 1;
    }
    None
}

/// The members `members` with `inner` under `name`: in place of the member
/// of that name, or as one member more.
fn with_member(members: Vec<(String, Value)>, name: String, inner: Value) -> (updated: Vec<
    (String, Value),
>)
    requires
        distinct_keys(members@),
    ensures
        distinct_keys(updated@),
        member_of(updated@, name@) == Some(inner),
        forall|key: Seq<char>|
            key != name@ ==> #[trigger] member_of(updated@, key) == member_of(members@, key),
{
    let mut updated = members;
    let ghost before = updated@;
    let ghost at: int;
    match position(&updated, &name) {
        Some(i) => {
            updated.set(i, (name, inner));
            proof {
                at = i as int;
            }
        },
        None => {
            updated.push((name, inner));
            proof {
                at = before.len() as int;
            }
        },
    }
    proof {
        let after = updated@;
        assert(after[at].0@ == name@ && after[at].1 == inner);
        assert forall|j: int| 0 <= j < after.len() && j != at implies (#[trigger] after[j])
            == before[j] && after[j].0@ != name@ by {
            if at < before.len() {
                assert(before[at].0@ == name@);
            }
        }
        assert(distinct_keys(after));
        lemma_member_of(after, at);
        assert forall|key: Seq<char>| key != name@ implies #[trigger] member_of(after, key)
            == member_of(before, key) by {
            if exists|j: int| 0 <= j < after.len() && (#[trigger] after[j]).0@ == key {
                let j = choose|j: int| 0 <= j < after.len() && (#[trigger] after[j]).0@ == key;
                assert(before[j].0@ == key);
                lemma_member_of(after, j);
                lemma_member_of(before, j);
            } else if exists|j: int| 0 <= j < before.len() && (#[trigger] before[j]).0@ == key {
                let j = choose|j: int| 0 <= j < before.len() && (#[trigger] before[j]).0@ == key;
                assert(after[j].0@ == key);
            }
        }
    }
    updated
}

/// What stands at a place, for the specification.
pub open spec fn place(origin: Option<&Value>) -> Option<Value> {
    match origin {
        Some(json) => Some(*json),
        None => None,
    }
}

/// Writes `value` at `path` into what stands at a place.
fn write_at(origin: Option<&Value>, path: &str, value: Value) -> (result: Option<Value>)
    ensures
        result is Some <==> fits(place(origin), path@),
        result matches Some(json) ==> written(place(origin), path@, value, json),
    decreases path@.len(),
{
    let n = path.unicode_len();
    if n == 0 {
        return Some(value);
    }
    if path.get_char(0) == '[' {
        let (digits, index) = read_index(path);
        if digits == 0 || digits + 1 >= n || path.get_char(digits + 1) != ']' {
            return None;
        }
        let start = skip_dot(path, digits + 2);
        let rest = path.substring_char(start, n);
        assert(rest@ == path@.skip(start as int));
        let items = match origin {
            None => {
                return None;
            },
            Some(json) => match elements_of(json) {
                None => {
                    return None;
                },
                Some(items) => items,
            },
        };
        let mut after: Vec<Value> = Vec::new();
        if index < items.len() {
            let inner = match write_at(Some(&items[index]), rest, value) {
                None => {
                    return None;
                },
                Some(inner) => inner,
            };
            let mut i: usize = 0;
            while i < index
                invariant
                    i <= index < items.len(),
                    after@ == items@.take(i as int),
                decreases index - i,
            {
                after.push(copy_of(&items[i]));
                assert(after@ =~= items@.take(i + 1));
                i = i + 1;
            }
            after.push(inner);
            i = i + 1;
            while i < items.len()
                invariant
                    index < i <= items.len(),
                    after@ == items@.take(i as int).update(index as int, inner),
                decreases items.len() - i,
            {
                after.push(copy_of(&items[i]));
                assert(after@ =~= items@.take(i + 1).update(index as int, inner));
                i = i + 1;
            }
            assert(items@.take(items.len() as int) =~= items@);
            Some(array_value(after))
        } else {
            let mut i: usize = 0;
            while i < items.len()
                invariant
                    i <= items.len(),
                    after@ == items@.take(i as int),
                decreases items.len() - i,
            {
                after.push(copy_of(&items[i]));
                assert(after@ =~= items@.take(i + 1));
                i = i + 1;
            }
            assert(items@.take(items.len() as int) =~= items@);
            after.push(value);
            Some(array_value(after))
        }
    } else {
        proof {
            lemma_name_len(path@);
        }
        let end = name_end(path);
        let start = skip_dot(path, end);
        let name = path.substring_char(0, end);
        let rest = path.substring_char(start, n);
        assert(name@ == path@.take(end as int));
        assert(rest@ == path@.skip(start as int));
        let members: Vec<(String, Value)> = match origin {
            None => Vec::new(),
            Some(json) => match members_of(json) {
                Some(members) => members,
                None => {
                    if is_null(json) {
                        Vec::new()
                    } else {
                        return None;
                    }
                },
            },
        };
        assert(forall|key: Seq<char>| #[trigger]
            member_at(place(origin), key) == member_of(members@, key));
        let key = String::from_str(name);
        let written_below = match position(&members, &key) {
            Some(i) => {
                proof {
                    lemma_member_of(members@, i as int);
                }
                write_at(Some(&members[i].1), rest, value)
            },
            None => write_at(None, rest, value),
        };
        let inner = match written_below {
            None => {
                return None;
            },
            Some(inner) => inner,
        };
        let updated = with_member(members, key, inner);
        Some(object_value(updated))
    }
}

/// Writes `value` at the place in `json` that `keys` names, and returns
/// the document that results; none where the path does not fit the
/// document. Objects that the path names and the document lacks are made
/// on the way.
pub fn write_nested_json_no_io(json: Value, keys: &str, value: Value) -> (result: Option<Value>)
    ensures
        result is Some <==> fits(Some(json), keys@),
        result matches Some(after) ==> written(Some(json), keys@, value, after),
{
    write_at(Some(&json), keys, value)
}

} // verus!
