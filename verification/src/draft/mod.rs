//! The first draft of the protocol, which some clients still speak. In it
//! the names of modules carry no version: a message type is written
//! `core.set`, and a client asks for a module by its name and the major
//! versions that it can use.

use vstd::prelude::*;
use vstd::string::StringSliceAdditionalSpecFns;
use crate::common::foundation::identifiers::bytes_equal;
use crate::common::foundation::identifiers::find_byte;
use crate::common::foundation::identifiers::have_bytes;
use crate::common::foundation::identifiers::have_str;
use crate::common::foundation::identifiers::ident_leader_byte;
use crate::common::foundation::identifiers::lemma_find_byte;
use crate::common::foundation::identifiers::nope_bytes;
use crate::common::foundation::identifiers::nope_str;
use crate::common::foundation::identifiers::split_at_dot;
use crate::common::foundation::identifiers::want_bytes;
use crate::common::foundation::identifiers::want_str;

pub mod module_version;
pub mod msg;
pub mod server;
pub mod sexp;

pub use self::module_version::ModuleVersion;

verus! {

/// A byte that may occur in an identifier of the draft: an ASCII letter, an
/// underscore or a hyphen.
pub open spec fn draft_name_byte(c: u8) -> bool {
    (0x41 <= c <= 0x5a) || (0x61 <= c <= 0x7a) || c == 0x5f || c == 0x2d
}

/// In the draft, identifiers start with a letter or underscore and go on
/// with letters, underscores and hyphens. They hold no digits: the name of
/// a module carries no version.
pub open spec fn is_draft_identifier(s: Seq<u8>) -> bool {
    &&& s.len() > 0
    &&& ident_leader_byte(s[0])
    &&& forall|i: int| 0 <= i < s.len() ==> draft_name_byte(#[trigger] s[i])
}

/// An identifier of the draft is made of ASCII bytes.
pub proof fn lemma_draft_identifier_is_ascii(s: Seq<u8>)
    requires
        is_draft_identifier(s),
    ensures
        forall|i: int| 0 <= i < s.len() ==> #[trigger] s[i] < 0x80,
{
    assert forall|i: int| 0 <= i < s.len() implies #[trigger] s[i] < 0x80 by {
        assert(draft_name_byte(s[i]));
    }
}

/// In the draft, a scoped identifier is two identifiers with a dot between
/// them: the name of a module and the name of a member of the module. The
/// result is these two names.
pub open spec fn split_draft_scoped(s: Seq<u8>) -> Option<(Seq<u8>, Seq<u8>)> {
    let d = find_byte(s, 0x2e, 0);
    let module = s.subrange(0, d);
    let member = s.subrange(d + 1, s.len() as int);
    if d < s.len() && is_draft_identifier(module) && is_draft_identifier(member) {
        Some((module, member))
    } else {
        None
    }
}

/// One of the message types of the draft that belong to no module.
pub open spec fn is_draft_eternal(s: Seq<u8>) -> bool {
    s == want_bytes() || s == have_bytes() || s == nope_bytes()
}

/// In the draft, a message type is `want`, `have` or `nope`, or a scoped
/// identifier.
pub open spec fn is_draft_message_type(s: Seq<u8>) -> bool {
    is_draft_eternal(s) || split_draft_scoped(s) is Some
}

/// A message type of the draft is made of ASCII bytes.
pub proof fn lemma_draft_type_is_ascii(s: Seq<u8>)
    requires
        is_draft_message_type(s),
    ensures
        forall|i: int| 0 <= i < s.len() ==> #[trigger] s[i] < 0x80,
{
    if is_draft_eternal(s) {
        assert(s.len() == 4);
    } else {
        lemma_find_byte(s, 0x2e, 0);
        let d = find_byte(s, 0x2e, 0);
        let module = s.subrange(0, d);
        let member = s.subrange(d + 1, s.len() as int);
        assert forall|i: int| 0 <= i < s.len() implies #[trigger] s[i] < 0x80 by {
            if i < d {
                assert(draft_name_byte(module[i]));
            } else if i > d {
                assert(draft_name_byte(member[i - d - 1]));
            }
        }
    }
}

/// Whether the argument is an identifier. This is for the names of
/// modules.
pub fn is_identifier(name: &str) -> (r: bool)
    ensures
        r == is_draft_identifier(name.spec_bytes()),
{
    let b = name.as_bytes();
    let n = b.len();
    if n == 0 || !is_name_byte(b[0]) || b[0] == 0x2d {
        return false;
    }
    let mut i: usize = 1;
    while i < n
        invariant
            b@ == name.spec_bytes(),
            n == b@.len(),
            1 <= i <= n,
            ident_leader_byte(b@[0]),
            forall|j: int| 0 <= j < i ==> draft_name_byte(#[trigger] b@[j]),
        decreases n - i,
    {
        if !is_name_byte(b[i]) {
            assert(!draft_name_byte(b@[i as int]));
            return false;
        }
        i = i + 1;
    }
    true
}

fn is_name_byte(ch: u8) -> (r: bool)
    ensures
        r == draft_name_byte(ch),
{
    (ch >= 0x41 && ch <= 0x5a) || (ch >= 0x61 && ch <= 0x7a) || ch == 0x5f || ch == 0x2d
}

/// Whether the argument is a scoped identifier of the draft. If it is, the
/// result holds the part before the dot, the name of the module, and the
/// part behind it, the name inside the module.
///
/// This is for the names of properties. It does not take the message types
/// that belong to no module.
pub fn is_scoped_identifier(name: &str) -> (r: Option<(&str, &str)>)
    ensures
        r is Some <==> split_draft_scoped(name.spec_bytes()) is Some,
        match r {
            Some((module, member)) => split_draft_scoped(name.spec_bytes()) == Some(
                (module.spec_bytes(), member.spec_bytes()),
            ),
            None => true,
        },
{
    match split_at_dot(name) {
        Some((module, member)) => {
            if is_identifier(module) && is_identifier(member) {
                Some((module, member))
            } else {
                None
            }
        },
        None => None,
    }
}

/// Whether the argument is a message type of the draft. If it is, the
/// result holds the name of the module and the name inside the module; for
/// `want`, `have` and `nope`, which belong to no module, the name of the
/// module is empty.
pub fn is_message_type(name: &str) -> (r: Option<(&str, &str)>)
    ensures
        r is Some <==> is_draft_message_type(name.spec_bytes()),
        match r {
            Some((module, member)) => if is_draft_eternal(name.spec_bytes()) {
                module.spec_bytes().len() == 0 && member == name
            } else {
                split_draft_scoped(name.spec_bytes()) == Some(
                    (module.spec_bytes(), member.spec_bytes()),
                )
            },
            None => true,
        },
{
    let b = name.as_bytes();
    if bytes_equal(b, want_str().as_bytes()) || bytes_equal(b, have_str().as_bytes())
        || bytes_equal(b, nope_str().as_bytes()) {
        proof {
            reveal_strlit("");
            vstd::string::is_ascii_spec_bytes("");
        }
        Some(("", name))
    } else {
        is_scoped_identifier(name)
    }
}

} // verus!
