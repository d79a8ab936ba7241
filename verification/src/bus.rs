//! Object paths of the QEMU display objects on the bus.

use vstd::prelude::*;

use crate::numeral;
use crate::numeral::push_decimal;

verus! {

/// Where the display listener is published for QEMU.
pub const LISTENER_PATH: &'static str = "/org/qemu/Display1/Listener";

/// A character that an element of an object path may hold.
pub open spec fn is_path_char(c: char) -> bool {
    'A' <= c <= 'Z' || 'a' <= c <= 'z' || '0' <= c <= '9' || c == '_'
}

/// The grammar of object paths: the root `/`, or elements that are not empty, each behind a `/`.
pub open spec fn is_object_path(s: Seq<char>) -> bool {
    &&& s.len() > 0
    &&& s[0] == '/'
    &&& forall|i: int| 0 <= i < s.len() ==> (#[trigger] s[i]) == '/' || is_path_char(s[i])
    &&& forall|i: int| 0 < i < s.len() && s[i - 1] == '/' ==> (#[trigger] s[i]) != '/'
    &&& s.len() > 1 ==> s.last() != '/'
}

#[verifier::external_type_specification]
#[verifier::external_body]
pub struct ExZvariantError(zbus::zvariant::Error);

/// Calls `OwnedObjectPath::try_from` of `zbus::zvariant` on a `String` and hands back the text of
/// the path that it made. The call takes exactly the texts that follow the grammar of object
/// paths, and keeps them as they are. Which error it gives for the others is not said.
#[verifier::external_body]
fn checked_object_path(path: String) -> (r: Result<String, zbus::zvariant::Error>)
    ensures
        r is Ok <==> is_object_path(path@),
        r matches Ok(text) ==> text@ == path@,
{
    zbus::zvariant::OwnedObjectPath::try_from(path).map(|owned| owned.as_str().to_owned())
}

/// The path of the console `id`.
pub open spec fn path_of_console(id: u32) -> Seq<char> {
    "/org/qemu/Display1/Console_"@ + numeral::decimal(id as nat)
}

/// Every console has a path that follows the grammar.
pub proof fn law_console_path_is_valid(id: u32)
    ensures
        is_object_path(path_of_console(id)),
{
    reveal_strlit("/org/qemu/Display1/Console_");
    let start = "/org/qemu/Display1/Console_"@;
    let digits = numeral::decimal(id as nat);
    let s = path_of_console(id);
    numeral::lemma_decimal(id as nat);
    assert(s.last() == digits.last());
    assert forall|i: int| 0 <= i < s.len() implies (#[trigger] s[i]) == '/' || is_path_char(
        s[i],
    ) by {
        if i < start.len() {
            assert(s[i] == start[i]);
        } else {
            assert(s[i] == digits[i - start.len()]);
        }
    }
    assert forall|i: int| 0 < i < s.len() && s[i - 1] == '/' implies (#[trigger] s[i])
        != '/' by {
        if i < start.len() {
            assert(s[i] == start[i]);
            assert(s[i - 1] == start[i - 1]);
        } else {
            assert(s[i] == digits[i - start.len()]);
        }
    }
}

/// No two consoles share a path.
pub proof fn law_console_paths_differ(a: u32, b: u32)
    requires
        a != b,
    ensures
        path_of_console(a) != path_of_console(b),
{
    reveal_strlit("/org/qemu/Display1/Console_");
    let n = "/org/qemu/Display1/Console_"@.len() as int;
    numeral::lemma_decimal(a as nat);
    numeral::lemma_decimal(b as nat);
    assert(path_of_console(a).skip(n) =~= numeral::decimal(a as nat));
    assert(path_of_console(b).skip(n) =~= numeral::decimal(b as nat));
}

/// The path of the listener follows the grammar.
pub proof fn law_listener_path_is_valid()
    ensures
        is_object_path(LISTENER_PATH@),
{
    reveal_strlit("/org/qemu/Display1/Listener");
}

/// A text that is no object path.
#[derive(Copy, Clone, Debug, PartialEq, Eq, Structural)]
pub struct InvalidObjectPath;

/// The text as an object path, where it is one.
pub fn object_path(text: String) -> (r: Result<String, InvalidObjectPath>)
    ensures
        match r {
            Ok(path) => is_object_path(text@) && path@ == text@,
            Err(_) => !is_object_path(text@),
        },
{
    match checked_object_path(text) {
        Ok(path) => Ok(path),
        Err(_) => Err(InvalidObjectPath),
    }
}

/// The object path of the console `id`.
pub fn console_path(id: u32) -> (r: String)
    ensures
        r@ == path_of_console(id),
{
    let mut text: String = "/org/qemu/Display1/Console_".to_owned();
    push_decimal(&mut text, id as u64);
    proof {
        law_console_path_is_valid(id);
    }
    match object_path(text) {
        Ok(path) => path,
        Err(_) => vstd::pervasive::unreached(),
    }
}

/// The path of a console is its number, in decimal and without leading zeros, behind the name that
/// all consoles share.
pub proof fn law_console_path_ends_in_its_number(id: u32)
    ensures
        ({
            let shared = "/org/qemu/Display1/Console_"@;
            let number = path_of_console(id).skip(shared.len() as int);
            &&& path_of_console(id) == shared + number
            &&& numeral::u32_of(number) == Some(id)
            &&& numeral::in_digits(number)
            &&& id > 0 ==> number[0] != '0'
            &&& id == 0 ==> number.len() == 1
        }),
{
    let shared = "/org/qemu/Display1/Console_"@;
    assert(path_of_console(id).skip(shared.len() as int) =~= numeral::decimal(id as nat));
    numeral::law_decimal_writes_the_number(id as nat);
    numeral::law_u32_reads_back(id);
}

/// A path is made up of elements, each behind a `/`: a text whose last `/` stands behind `before`
/// and before `name` is a path exactly where `name` is an element and `before` is a path other
/// than the root, or nothing; or where both are empty, which is the root. A text without a `/` is
/// no path.
pub proof fn law_path_is_made_up_of_elements(before: Seq<char>, name: Seq<char>)
    requires
        !name.contains('/'),
    ensures
        ({
            let element = name.len() > 0 && forall|i: int|
                0 <= i < name.len() ==> {
                    ||| 0x41 <= (#[trigger] name[i]) as int <= 0x5a
                    ||| 0x61 <= name[i] as int <= 0x7a
                    ||| 0x30 <= name[i] as int <= 0x39
                    ||| name[i] == '_'
                };
            is_object_path(before + seq!['/'] + name) <==> {
                ||| before.len() == 0 && name.len() == 0
                ||| element && (before.len() == 0 || is_object_path(before) && before != seq!['/'])
            }
        }),
        !is_object_path(name),
{
    let s = before + seq!['/'] + name;
    let n = before.len() as int;
    assert forall|i: int| 0 <= i < name.len() implies s[n + 1 + i] == name[i] && name[i]
        != '/' by {
        if name[i] == '/' {
            assert(name.contains('/'));
        }
    }
    assert forall|i: int| 0 <= i < n implies s[i] == before[i] by {}
    assert(s[n] == '/');
    if name.len() > 0 {
        assert(s.last() == name.last());
        assert(name[0] != '/');
    } else {
        assert(s.last() == '/');
    }
    if is_object_path(s) {
        assert forall|i: int| 0 <= i < name.len() implies is_path_char(#[trigger] name[i]) by {
            assert(s[n + 1 + i] == name[i]);
        }
        if n > 0 && name.len() > 0 {
            assert(before.last() == s[n - 1]);
            assert(before.last() != '/');
            assert(s[0] == before[0]);
            assert(before != seq!['/']);
            assert forall|i: int| 0 <= i < n implies (#[trigger] before[i]) == '/' || is_path_char(
                before[i],
            ) by {
                assert(s[i] == before[i]);
            }
            assert forall|i: int| 0 < i < n && before[i - 1] == '/' implies (#[trigger] before[i])
                != '/' by {
                assert(s[i] == before[i]);
                assert(s[i - 1] == before[i - 1]);
            }
            assert(is_object_path(before));
        }
    }
    if n == 0 && name.len() == 0 {
        assert(s =~= seq!['/']);
    }
    if name.len() > 0 && (n == 0 || is_object_path(before) && before != seq!['/']) && forall|i: int|
        0 <= i < name.len() ==> is_path_char(#[trigger] name[i]) {
        if n == 1 {
            assert(before =~= seq!['/']);
        }
        assert(n > 0 ==> before.last() != '/');
        assert forall|i: int| 0 <= i < s.len() implies (#[trigger] s[i]) == '/' || is_path_char(
            s[i],
        ) by {
            if i < n {
                assert(s[i] == before[i]);
            } else if i > n {
                assert(s[i] == name[i - n - 1]);
            }
        }
        assert forall|i: int| 0 < i < s.len() && s[i - 1] == '/' implies (#[trigger] s[i])
            != '/' by {
            if i < n {
                assert(s[i] == before[i]);
                assert(s[i - 1] == before[i - 1]);
            } else if i == n {
                assert(s[i - 1] == before.last());
            } else {
                assert(s[i] == name[i - n - 1]);
            }
        }
        assert(s[0] == '/');
        assert(is_object_path(s));
    }
}

} // verus!
