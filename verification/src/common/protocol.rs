//! The closed set of message type tags of the wire protocol.

use vstd::prelude::*;
use vstd::string::StrSliceExecFns;

verus! {

/// A recognized message type. Unrecognized tags never reach this enum: the
/// codec hands them through as raw text, and `MessageType::from_str` returns
/// `None` for them, so policy for unknown tags is decided by the caller.
#[derive(Debug, Clone, Copy, PartialEq, Eq, Structural)]
pub enum MessageType {
    Hello,
    Chat,
    UserJoined,
    UserLeft,
    UserExit,
}

/// The characters of the wire tag of each recognized message type.
pub open spec fn spec_tag(t: MessageType) -> Seq<char> {
    match t {
        MessageType::Hello => seq!['h', 'e', 'l', 'l', 'o'],
        MessageType::Chat => seq!['c', 'h', 'a', 't'],
        MessageType::UserJoined => seq!['u', 's', 'e', 'r', '_', 'j', 'o', 'i', 'n', 'e', 'd'],
        MessageType::UserLeft => seq!['u', 's', 'e', 'r', '_', 'l', 'e', 'f', 't'],
        MessageType::UserExit => seq!['u', 's', 'e', 'r', '_', 'e', 'x', 'i', 't'],
    }
}

/// Compares two string slices character by character.
pub fn str_eq(a: &str, b: &str) -> (r: bool)
    ensures
        r == (a@ == b@),
{
    let alen = a.unicode_len();
    let blen = b.unicode_len();
    if alen != blen {
        return false;
    }
    let mut i: usize = 0;
    while i < alen
        invariant
            i <= alen,
            alen == a@.len(),
            alen == b@.len(),
            forall|j: int| 0 <= j < i ==> a@[j] == b@[j],
        decreases alen - i,
    {
        if a.get_char(i) != b.get_char(i) {
            return false;
        }
        i = i + 1;
    }
    proof {
        assert(a@ =~= b@);
    }
    true
}

/// Distinct message types have distinct wire tags.
pub proof fn lemma_tags_distinct()
    ensures
        forall|t1: MessageType, t2: MessageType| t1 != t2 ==> spec_tag(t1) != spec_tag(t2),
{
    assert(spec_tag(MessageType::Hello).len() == 5);
    assert(spec_tag(MessageType::Chat).len() == 4);
    assert(spec_tag(MessageType::UserJoined).len() == 11);
    assert(spec_tag(MessageType::UserLeft).len() == 9);
    assert(spec_tag(MessageType::UserExit).len() == 9);
    assert(spec_tag(MessageType::UserLeft)[5] == 'l');
    assert(spec_tag(MessageType::UserExit)[5] == 'e');
}

impl MessageType {
    /// The wire tag of this message type.
    pub fn as_str(&self) -> (r: &'static str)
        ensures
            r@ == spec_tag(*self),
    {
        proof {
            reveal_strlit("hello");
            reveal_strlit("chat");
            reveal_strlit("user_joined");
            reveal_strlit("user_left");
            reveal_strlit("user_exit");
            assert("hello"@ =~= spec_tag(MessageType::Hello));
            assert("chat"@ =~= spec_tag(MessageType::Chat));
            assert("user_joined"@ =~= spec_tag(MessageType::UserJoined));
            assert("user_left"@ =~= spec_tag(MessageType::UserLeft));
            assert("user_exit"@ =~= spec_tag(MessageType::UserExit));
        }
        match self {
            MessageType::Hello => "hello",
            MessageType::Chat => "chat",
            MessageType::UserJoined => "user_joined",
            MessageType::UserLeft => "user_left",
            MessageType::UserExit => "user_exit",
        }
    }

    /// The message type a wire tag stands for, or `None` for a tag outside
    /// the recognized set.
    pub fn from_str(type_str: &str) -> (r: Option<MessageType>)
        ensures
            match r {
                Some(t) => type_str@ == spec_tag(t),
                None => forall|t: MessageType| type_str@ != spec_tag(t),
            },
    {
        proof {
            reveal_strlit("hello");
            reveal_strlit("chat");
            reveal_strlit("user_joined");
            reveal_strlit("user_left");
            reveal_strlit("user_exit");
            assert("hello"@ =~= spec_tag(MessageType::Hello));
            assert("chat"@ =~= spec_tag(MessageType::Chat));
            assert("user_joined"@ =~= spec_tag(MessageType::UserJoined));
            assert("user_left"@ =~= spec_tag(MessageType::UserLeft));
            assert("user_exit"@ =~= spec_tag(MessageType::UserExit));
        }
        if str_eq(type_str, "hello") {
            Some(MessageType::Hello)
        } else if str_eq(type_str, "chat") {
            Some(MessageType::Chat)
        } else if str_eq(type_str, "user_joined") {
            Some(MessageType::UserJoined)
        } else if str_eq(type_str, "user_left") {
            Some(MessageType::UserLeft)
        } else if str_eq(type_str, "user_exit") {
            Some(MessageType::UserExit)
        } else {
            None
        }
    }
}

} // verus!
