use vstd::prelude::*;
use vstd::std_specs::vec::vec_index_mut;

use crate::error::StoreError;
use crate::keys::find_key;
use crate::keys::key_index;
use crate::keys::lemma_key_index;
use crate::keys::row_of;
use crate::keys::has_key;
use crate::keys::keys_below;
use crate::keys::keys_unique;
use crate::keys::Keyed;
use crate::rows::Agent;
use crate::rows::Chat;
use crate::rows::ChatParticipant;
use crate::rows::ChatType;
use crate::rows::Contact;
use crate::rows::ContactGroup;
use crate::rows::ContactUserLink;
use crate::rows::Conversation;
use crate::rows::Message;
use crate::rows::MessageReceipt;
use crate::rows::dup_opt_i64;
use crate::rows::dup_opt_string;
use crate::rows::dup_opt_u64;
use crate::rows::ParticipantRole;
use crate::rows::User;

verus! {

broadcast use crate::keys::group_key_lemmas;

/// Upper bound under which the store keeps allocating fresh row ids; a
/// single operation allocates at most a handful of ids, so staying below
/// this bound keeps every allocation free of overflow.
pub const ID_LIMIT: u64 = 0xffff_ffff_0000_0000;

/// An injected fault at position `k` (counting upcoming write statements
/// from 1) hits an operation that performs `steps` write statements iff
/// `k` falls within them.
pub open spec fn fault_in(f: Option<u64>, steps: int) -> bool {
    match f {
        Some(k) => 1 <= k && k <= steps,
        None => false,
    }
}

/// No two rows are memberships of the same user in the same chat.
pub open spec fn pairs_unique(parts: Seq<ChatParticipant>) -> bool {
    forall|i: int, j: int|
        0 <= i < j < parts.len() ==> !(parts[i].chat_id == parts[j].chat_id && parts[i].user_id
            == parts[j].user_id)
}

/// Position of the membership row of `user_id` in `chat_id`; meaningful
/// when the pair exists.
pub open spec fn pair_index(parts: Seq<ChatParticipant>, chat_id: u64, user_id: u64) -> int {
    choose|i: int|
        0 <= i < parts.len() && (#[trigger] parts[i]).chat_id == chat_id && parts[i].user_id
            == user_id
}

/// The relational state of the chat client.
///
/// Every vector plays the role of one table; `next_id` is the id
/// allocator (all stored ids are below it), and `fault_step` optionally
/// marks an upcoming write statement that must fail, which lets callers
/// exercise the atomicity of multi-step operations.
pub struct Store {
    pub users: Vec<User>,
    pub chats: Vec<Chat>,
    pub participants: Vec<ChatParticipant>,
    pub conversations: Vec<Conversation>,
    pub messages: Vec<Message>,
    pub receipts: Vec<MessageReceipt>,
    pub contact_groups: Vec<ContactGroup>,
    pub contact_user_links: Vec<ContactUserLink>,
    pub contacts: Vec<Contact>,
    pub agents: Vec<Agent>,
    pub next_id: u64,
    pub fault_step: Option<u64>,
}

/// The two stores hold exactly the same rows and id allocator state;
/// only the fault marker may differ.
pub open spec fn unchanged_tables(a: Store, b: Store) -> bool {
    &&& a.users@ == b.users@
    &&& a.chats@ == b.chats@
    &&& a.participants@ == b.participants@
    &&& a.conversations@ == b.conversations@
    &&& a.messages@ == b.messages@
    &&& a.receipts@ == b.receipts@
    &&& a.contact_groups@ == b.contact_groups@
    &&& a.contact_user_links@ == b.contact_user_links@
    &&& a.contacts@ == b.contacts@
    &&& a.agents@ == b.agents@
    &&& a.next_id == b.next_id
}

/// Well-formedness carries over to a store with the same tables.
pub proof fn lemma_wf_unchanged(a: Store, b: Store)
    requires
        a.wf(),
        unchanged_tables(a, b),
    ensures
        b.wf(),
{
    assert(b.ids_ok());
    assert(b.participants_ok());
    assert(b.conversations_ok());
    assert(b.messages_ok());
    assert(b.receipts_ok());
    assert(b.contacts_ok());
    assert(b.agents_ok());
}

/// Receipt well-formedness only looks at the receipts and messages
/// tables, so it carries over whenever both are unchanged.
pub proof fn lemma_receipts_ok_same(a: Store, b: Store)
    requires
        a.receipts_ok(),
        b.receipts@ == a.receipts@,
        b.messages@ == a.messages@,
    ensures
        b.receipts_ok(),
{
    assert forall|i: int| 0 <= i < b.receipts@.len() implies exists|k: int|
        0 <= k < b.messages@.len() && (#[trigger] b.messages@[k]).id == (
        #[trigger] b.receipts@[i]).message_id && b.messages@[k].sender_id
            != b.receipts@[i].receiver_id by {
        let k = choose|k: int|
            0 <= k < a.messages@.len() && (#[trigger] a.messages@[k]).id
                == a.receipts@[i].message_id && a.messages@[k].sender_id
                != a.receipts@[i].receiver_id;
        assert(b.messages@[k].id == b.receipts@[i].message_id && b.messages@[k].sender_id
            != b.receipts@[i].receiver_id);
    }
}

/// Well-formedness, one conjunct at a time.
pub proof fn lemma_wf_parts(s: Store)
    requires
        s.ids_ok(),
        s.participants_ok(),
        s.conversations_ok(),
        s.messages_ok(),
        s.receipts_ok(),
        s.contacts_ok(),
        s.agents_ok(),
    ensures
        s.wf(),
{
}

impl Store {
    /// Primary keys are unique per table and below the id allocator.
    pub open spec fn ids_ok(self) -> bool {
        &&& self.next_id >= 1
        &&& keys_unique(self.users@) && keys_below(self.users@, self.next_id)
        &&& keys_unique(self.chats@) && keys_below(self.chats@, self.next_id)
        &&& keys_unique(self.conversations@) && keys_below(self.conversations@, self.next_id)
        &&& keys_unique(self.messages@) && keys_below(self.messages@, self.next_id)
        &&& keys_unique(self.contact_groups@) && keys_below(self.contact_groups@, self.next_id)
        &&& keys_unique(self.contact_user_links@) && keys_below(
            self.contact_user_links@,
            self.next_id,
        )
        &&& keys_unique(self.contacts@) && keys_below(self.contacts@, self.next_id)
        &&& keys_unique(self.agents@) && keys_below(self.agents@, self.next_id)
    }

    /// Participant rows have unique `(chat_id, user_id)` pairs, reference
    /// an existing chat and user, and keep their counters below the id
    /// allocator.
    pub open spec fn participants_ok(self) -> bool {
        &&& pairs_unique(self.participants@)
        &&& forall|i: int|
            0 <= i < self.participants@.len() ==> has_key(
                self.chats@,
                (#[trigger] self.participants@[i]).chat_id,
            )
        &&& forall|i: int|
            0 <= i < self.participants@.len() ==> has_key(
                self.users@,
                (#[trigger] self.participants@[i]).user_id,
            )
        &&& forall|i: int|
            0 <= i < self.participants@.len() ==> match (
            #[trigger] self.participants@[i]).last_read_message_id {
                Some(c) => c < self.next_id,
                None => true,
            }
        &&& forall|i: int|
            0 <= i < self.participants@.len() ==> (#[trigger] self.participants@[i]).unread_count
                <= self.next_id
    }

    /// Each conversation references an existing chat, and no chat has two
    /// conversations.
    pub open spec fn conversations_ok(self) -> bool {
        &&& forall|i: int|
            0 <= i < self.conversations@.len() ==> has_key(
                self.chats@,
                (#[trigger] self.conversations@[i]).chat_id,
            )
        &&& forall|i: int, j: int|
            0 <= i < j < self.conversations@.len() ==> self.conversations@[i].chat_id
                != self.conversations@[j].chat_id
    }

    /// Each message belongs to an existing conversation.
    pub open spec fn messages_ok(self) -> bool {
        forall|i: int|
            0 <= i < self.messages@.len() ==> has_key(
                self.conversations@,
                (#[trigger] self.messages@[i]).conversation_id,
            )
    }

    /// Receipt rows have unique `(message_id, receiver_id)` pairs and
    /// reference an existing message whose sender differs from the
    /// receiver.
    pub open spec fn receipts_ok(self) -> bool {
        &&& forall|i: int, j: int|
            0 <= i < j < self.receipts@.len() ==> !(self.receipts@[i].message_id
                == self.receipts@[j].message_id && self.receipts@[i].receiver_id
                == self.receipts@[j].receiver_id)
        &&& forall|i: int|
            0 <= i < self.receipts@.len() ==> exists|k: int|
                0 <= k < self.messages@.len() && (#[trigger] self.messages@[k]).id == (
                #[trigger] self.receipts@[i]).message_id && self.messages@[k].sender_id
                    != self.receipts@[i].receiver_id
    }

    /// Each contact references an existing group, owner, and user link.
    pub open spec fn contacts_ok(self) -> bool {
        &&& forall|i: int|
            0 <= i < self.contacts@.len() ==> has_key(
                self.contact_groups@,
                (#[trigger] self.contacts@[i]).group_id,
            )
        &&& forall|i: int|
            0 <= i < self.contacts@.len() ==> has_key(
                self.users@,
                (#[trigger] self.contacts@[i]).owner_id,
            )
        &&& forall|i: int|
            0 <= i < self.contacts@.len() ==> has_key(
                self.contact_user_links@,
                (#[trigger] self.contacts@[i]).user_link_id,
            )
    }

    /// An agent whose `user_id` is set references an existing user.
    pub open spec fn agents_ok(self) -> bool {
        forall|i: int|
            0 <= i < self.agents@.len() ==> match (#[trigger] self.agents@[i]).user_id {
                Some(u) => has_key(self.users@, u),
                None => true,
            }
    }

    /// Well-formedness of the whole store: the cross-table invariants
    /// that every operation preserves.
    pub open spec fn wf(self) -> bool {
        &&& self.ids_ok()
        &&& self.participants_ok()
        &&& self.conversations_ok()
        &&& self.messages_ok()
        &&& self.receipts_ok()
        &&& self.contacts_ok()
        &&& self.agents_ok()
    }

    /// A fresh, empty store.  It satisfies the unread-consistency
    /// invariant, the base of the chain that the write operations'
    /// contracts carry forward.
    pub fn new() -> (s: Store)
        ensures
            s.wf(),
            s.unread_consistent(),
            s.users@.len() == 0,
            s.chats@.len() == 0,
            s.participants@.len() == 0,
            s.conversations@.len() == 0,
            s.messages@.len() == 0,
            s.receipts@.len() == 0,
            s.contact_groups@.len() == 0,
            s.contact_user_links@.len() == 0,
            s.contacts@.len() == 0,
            s.agents@.len() == 0,
            s.next_id == 1,
            s.fault_step.is_none(),
    {
        Store {
            users: Vec::new(),
            chats: Vec::new(),
            participants: Vec::new(),
            conversations: Vec::new(),
            messages: Vec::new(),
            receipts: Vec::new(),
            contact_groups: Vec::new(),
            contact_user_links: Vec::new(),
            contacts: Vec::new(),
            agents: Vec::new(),
            next_id: 1,
            fault_step: None,
        }
    }

    /// Arrange for the `step`-th upcoming write statement to fail, as an
    /// underlying database failure would; the operation it lands in rolls
    /// back entirely.
    pub fn inject_fault(&mut self, step: u64)
        ensures
            unchanged_tables(*old(self), *final(self)),
            final(self).fault_step == Some(step),
    {
        self.fault_step = Some(step);
    }

    /// Remove any injected fault.
    pub fn clear_fault(&mut self)
        ensures
            unchanged_tables(*old(self), *final(self)),
            final(self).fault_step.is_none(),
    {
        self.fault_step = None;
    }

    /// Account for `steps` upcoming write statements; reports whether the
    /// injected fault (if any) hits one of them, consuming it.
    pub(crate) fn consume_fault(&mut self, steps: u64) -> (hit: bool)
        ensures
            final(self).users == old(self).users,
            final(self).chats == old(self).chats,
            final(self).participants == old(self).participants,
            final(self).conversations == old(self).conversations,
            final(self).messages == old(self).messages,
            final(self).receipts == old(self).receipts,
            final(self).contact_groups == old(self).contact_groups,
            final(self).contact_user_links == old(self).contact_user_links,
            final(self).contacts == old(self).contacts,
            final(self).agents == old(self).agents,
            final(self).next_id == old(self).next_id,
            hit == fault_in(old(self).fault_step, steps as int),
            final(self).fault_step == (match old(self).fault_step {
                None => None::<u64>,
                Some(k) => if k <= steps {
                    None
                } else {
                    Some((k - steps) as u64)
                },
            }),
    {
        match self.fault_step {
            None => false,
            Some(k) => {
                if k <= steps {
                    self.fault_step = None;
                    k >= 1
                } else {
                    self.fault_step = Some(k - steps);
                    false
                }
            },
        }
    }

    /// Allocate a fresh row id.
    pub(crate) fn alloc_id(&mut self) -> (id: u64)
        requires
            old(self).next_id < ID_LIMIT,
        ensures
            id == old(self).next_id,
            final(self).next_id == old(self).next_id + 1,
            final(self).users == old(self).users,
            final(self).chats == old(self).chats,
            final(self).participants == old(self).participants,
            final(self).conversations == old(self).conversations,
            final(self).messages == old(self).messages,
            final(self).receipts == old(self).receipts,
            final(self).contact_groups == old(self).contact_groups,
            final(self).contact_user_links == old(self).contact_user_links,
            final(self).contacts == old(self).contacts,
            final(self).agents == old(self).agents,
            final(self).fault_step == old(self).fault_step,
    {
        let id = self.next_id;
        self.next_id = self.next_id + 1;
        id
    }

    /// Index of the participant row for `(chat_id, user_id)`, if any.
    pub fn find_participant(&self, chat_id: u64, user_id: u64) -> (r: Option<usize>)
        ensures
            match r {
                Some(i) => i < self.participants@.len() && self.participants@[i as int].chat_id
                    == chat_id && self.participants@[i as int].user_id == user_id,
                None => forall|k: int|
                    0 <= k < self.participants@.len() ==> !((#[trigger] self.participants@[k]).chat_id
                        == chat_id && self.participants@[k].user_id == user_id),
            },
    {
        let n = self.participants.len();
        let mut i: usize = 0;
        while i < n
            invariant
                i <= n,
                n == self.participants@.len(),
                forall|k: int|
                    0 <= k < i ==> !((#[trigger] self.participants@[k]).chat_id == chat_id
                        && self.participants@[k].user_id == user_id),
            decreases n - i,
        {
            if self.participants[i].chat_id == chat_id && self.participants[i].user_id == user_id {
                return Some(i);
            }
            i += 1;
        }
        None
    }

    /// Index of the receipt row for `(message_id, receiver_id)`, if any.
    pub fn find_receipt(&self, message_id: u64, receiver_id: u64) -> (r: Option<usize>)
        ensures
            match r {
                Some(i) => i < self.receipts@.len() && self.receipts@[i as int].message_id
                    == message_id && self.receipts@[i as int].receiver_id == receiver_id,
                None => forall|k: int|
                    0 <= k < self.receipts@.len() ==> !((#[trigger] self.receipts@[k]).message_id
                        == message_id && self.receipts@[k].receiver_id == receiver_id),
            },
    {
        let n = self.receipts.len();
        let mut i: usize = 0;
        while i < n
            invariant
                i <= n,
                n == self.receipts@.len(),
                forall|k: int|
                    0 <= k < i ==> !((#[trigger] self.receipts@[k]).message_id == message_id
                        && self.receipts@[k].receiver_id == receiver_id),
            decreases n - i,
        {
            if self.receipts[i].message_id == message_id && self.receipts[i].receiver_id
                == receiver_id {
                return Some(i);
            }
            i += 1;
        }
        None
    }

    /// Index of the conversation row of `chat_id`, if any; a chat has at
    /// most one.
    pub fn find_conversation_of_chat(&self, chat_id: u64) -> (r: Option<usize>)
        ensures
            match r {
                Some(i) => i < self.conversations@.len() && self.conversations@[i as int].chat_id
                    == chat_id,
                None => forall|k: int|
                    0 <= k < self.conversations@.len() ==> (
                    #[trigger] self.conversations@[k]).chat_id != chat_id,
            },
    {
        let n = self.conversations.len();
        let mut i: usize = 0;
        while i < n
            invariant
                i <= n,
                n == self.conversations@.len(),
                forall|k: int|
                    0 <= k < i ==> (#[trigger] self.conversations@[k]).chat_id != chat_id,
            decreases n - i,
        {
            if self.conversations[i].chat_id == chat_id {
                return Some(i);
            }
            i += 1;
        }
        None
    }

    /// Create a chat with an empty last-message cache.
    ///
    /// A single insert: it fails only when an injected fault hits it.
    pub fn create_chat(&mut self, title: String, chat_type: ChatType, now: i64) -> (r: Result<
        Chat,
        StoreError,
    >)
        requires
            old(self).wf(),
            old(self).next_id < ID_LIMIT,
        ensures
            final(self).wf(),
            match r {
                Ok(c) => {
                    &&& !fault_in(old(self).fault_step, 1)
                    &&& c == (Chat {
                        id: old(self).next_id,
                        title: title,
                        chat_type: chat_type,
                        last_message_id: None,
                        last_message_content: None,
                        last_message_time: None,
                        last_message_sender: None,
                        last_message_type: None,
                        created_at: now,
                        updated_at: now,
                    })
                    &&& final(self).chats@ == old(self).chats@.push(c)
                    &&& final(self).next_id == old(self).next_id + 1
                    &&& final(self).users == old(self).users
                    &&& final(self).participants == old(self).participants
                    &&& final(self).conversations == old(self).conversations
                    &&& final(self).messages == old(self).messages
                    &&& final(self).receipts == old(self).receipts
                    &&& final(self).contact_groups == old(self).contact_groups
                    &&& final(self).contact_user_links == old(self).contact_user_links
                    &&& final(self).contacts == old(self).contacts
                    &&& final(self).agents == old(self).agents
                },
                Err(e) => {
                    &&& e == StoreError::DatabaseError
                    &&& fault_in(old(self).fault_step, 1)
                    &&& unchanged_tables(*old(self), *final(self))
                },
            },
    {
        if self.consume_fault(1) {
            proof {
                lemma_wf_unchanged(*old(self), *self);
            }
            return Err(StoreError::DatabaseError);
        }
        let id = self.alloc_id();
        let chat = Chat {
            id,
            title,
            chat_type,
            last_message_id: None,
            last_message_content: None,
            last_message_time: None,
            last_message_sender: None,
            last_message_type: None,
            created_at: now,
            updated_at: now,
        };
        let out = chat.dup();
        self.chats.push(chat);
        proof {
            assert(self.participants_ok());
            lemma_receipts_ok_same(*old(self), *self);
            lemma_wf_parts(*self);
        }
        Ok(out)
    }

    /// Some participant row is a membership of `user_id`.
    pub open spec fn some_participant_of_user(self, user_id: u64) -> bool {
        exists|i: int|
            0 <= i < self.participants@.len() && (#[trigger] self.participants@[i]).user_id
                == user_id
    }

    /// Some participant row is the membership of `user_id` in `chat_id`.
    pub open spec fn some_participant_pair(self, chat_id: u64, user_id: u64) -> bool {
        exists|i: int|
            0 <= i < self.participants@.len() && (#[trigger] self.participants@[i]).chat_id
                == chat_id && self.participants@[i].user_id == user_id
    }

    /// Some contact is owned by `owner_id`.
    pub open spec fn some_contact_owned_by(self, owner_id: u64) -> bool {
        exists|i: int|
            0 <= i < self.contacts@.len() && (#[trigger] self.contacts@[i]).owner_id == owner_id
    }

    /// Some contact sits in group `group_id`.
    pub open spec fn some_contact_in_group(self, group_id: u64) -> bool {
        exists|i: int|
            0 <= i < self.contacts@.len() && (#[trigger] self.contacts@[i]).group_id == group_id
    }

    /// Some contact goes through user link `link_id`.
    pub open spec fn some_contact_with_link(self, link_id: u64) -> bool {
        exists|i: int|
            0 <= i < self.contacts@.len() && (#[trigger] self.contacts@[i]).user_link_id == link_id
    }

    /// Some user link wraps `user_id`.
    pub open spec fn some_link_with_user(self, user_id: u64) -> bool {
        exists|i: int|
            0 <= i < self.contact_user_links@.len() && (
            #[trigger] self.contact_user_links@[i]).user_id == user_id
    }

    /// Some agent is linked to `user_id`.
    pub open spec fn some_agent_of_user(self, user_id: u64) -> bool {
        exists|i: int|
            0 <= i < self.agents@.len() && (#[trigger] self.agents@[i]).user_id == Some(user_id)
    }

    /// Some conversation belongs to `chat_id`.
    pub open spec fn some_conversation_of_chat(self, chat_id: u64) -> bool {
        exists|i: int|
            0 <= i < self.conversations@.len() && (#[trigger] self.conversations@[i]).chat_id
                == chat_id
    }

    /// Whether any participant row is a membership of `user_id`.
    pub fn participates_anywhere(&self, user_id: u64) -> (b: bool)
        ensures
            b == self.some_participant_of_user(user_id),
    {
        let n = self.participants.len();
        let mut i: usize = 0;
        while i < n
            invariant
                i <= n,
                n == self.participants@.len(),
                forall|k: int|
                    0 <= k < i ==> (#[trigger] self.participants@[k]).user_id != user_id,
            decreases n - i,
        {
            if self.participants[i].user_id == user_id {
                return true;
            }
            i += 1;
        }
        false
    }

    /// Whether any contact is owned by `owner_id`.
    pub fn owns_any_contact(&self, owner_id: u64) -> (b: bool)
        ensures
            b == self.some_contact_owned_by(owner_id),
    {
        let n = self.contacts.len();
        let mut i: usize = 0;
        while i < n
            invariant
                i <= n,
                n == self.contacts@.len(),
                forall|k: int| 0 <= k < i ==> (#[trigger] self.contacts@[k]).owner_id != owner_id,
            decreases n - i,
        {
            if self.contacts[i].owner_id == owner_id {
                return true;
            }
            i += 1;
        }
        false
    }

    /// Whether any contact sits in group `group_id`.
    pub fn group_has_contacts(&self, group_id: u64) -> (b: bool)
        ensures
            b == self.some_contact_in_group(group_id),
    {
        let n = self.contacts.len();
        let mut i: usize = 0;
        while i < n
            invariant
                i <= n,
                n == self.contacts@.len(),
                forall|k: int| 0 <= k < i ==> (#[trigger] self.contacts@[k]).group_id != group_id,
            decreases n - i,
        {
            if self.contacts[i].group_id == group_id {
                return true;
            }
            i += 1;
        }
        false
    }

    /// Whether any contact goes through user link `link_id`.
    pub fn link_has_contacts(&self, link_id: u64) -> (b: bool)
        ensures
            b == self.some_contact_with_link(link_id),
    {
        let n = self.contacts.len();
        let mut i: usize = 0;
        while i < n
            invariant
                i <= n,
                n == self.contacts@.len(),
                forall|k: int|
                    0 <= k < i ==> (#[trigger] self.contacts@[k]).user_link_id != link_id,
            decreases n - i,
        {
            if self.contacts[i].user_link_id == link_id {
                return true;
            }
            i += 1;
        }
        false
    }

    /// Whether any user link wraps `user_id`.
    pub fn user_has_links(&self, user_id: u64) -> (b: bool)
        ensures
            b == self.some_link_with_user(user_id),
    {
        let n = self.contact_user_links.len();
        let mut i: usize = 0;
        while i < n
            invariant
                i <= n,
                n == self.contact_user_links@.len(),
                forall|k: int|
                    0 <= k < i ==> (#[trigger] self.contact_user_links@[k]).user_id != user_id,
            decreases n - i,
        {
            if self.contact_user_links[i].user_id == user_id {
                return true;
            }
            i += 1;
        }
        false
    }

    /// Whether any agent is linked to `user_id`.
    pub fn user_has_agents(&self, user_id: u64) -> (b: bool)
        ensures
            b == self.some_agent_of_user(user_id),
    {
        let n = self.agents.len();
        let mut i: usize = 0;
        while i < n
            invariant
                i <= n,
                n == self.agents@.len(),
                forall|k: int|
                    0 <= k < i ==> (#[trigger] self.agents@[k]).user_id != Some(user_id),
            decreases n - i,
        {
            match self.agents[i].user_id {
                Some(u) => if u == user_id {
                    return true;
                },
                None => {},
            }
            i += 1;
        }
        false
    }

    /// Create a user.
    ///
    /// A single insert: it fails only when an injected fault hits it.
    pub fn create_user(
        &mut self,
        name: String,
        description: Option<String>,
        is_ai: bool,
        now: i64,
    ) -> (r: Result<User, StoreError>)
        requires
            old(self).wf(),
            old(self).next_id < ID_LIMIT,
        ensures
            final(self).wf(),
            match r {
                Ok(u) => {
                    &&& !fault_in(old(self).fault_step, 1)
                    &&& u == (User {
                        id: old(self).next_id,
                        name: name,
                        description: description,
                        is_ai: is_ai,
                        created_at: now,
                        updated_at: now,
                    })
                    &&& final(self).users@ == old(self).users@.push(u)
                    &&& final(self).next_id == old(self).next_id + 1
                    &&& final(self).chats == old(self).chats
                    &&& final(self).participants == old(self).participants
                    &&& final(self).conversations == old(self).conversations
                    &&& final(self).messages == old(self).messages
                    &&& final(self).receipts == old(self).receipts
                    &&& final(self).contact_groups == old(self).contact_groups
                    &&& final(self).contact_user_links == old(self).contact_user_links
                    &&& final(self).contacts == old(self).contacts
                    &&& final(self).agents == old(self).agents
                },
                Err(e) => {
                    &&& e == StoreError::DatabaseError
                    &&& fault_in(old(self).fault_step, 1)
                    &&& unchanged_tables(*old(self), *final(self))
                },
            },
    {
        if self.consume_fault(1) {
            proof {
                lemma_wf_unchanged(*old(self), *self);
            }
            return Err(StoreError::DatabaseError);
        }
        let id = self.alloc_id();
        let user = User { id, name, description, is_ai, created_at: now, updated_at: now };
        let out = user.dup();
        self.users.push(user);
        proof {
            assert(self.participants_ok());
            assert(self.contacts_ok());
            assert(self.agents_ok());
            lemma_receipts_ok_same(*old(self), *self);
            lemma_wf_parts(*self);
        }
        Ok(out)
    }

    /// Create an AI user: a user with `is_ai` set.
    pub fn create_ai_user(&mut self, name: String, description: Option<String>, now: i64) -> (r:
        Result<User, StoreError>)
        requires
            old(self).wf(),
            old(self).next_id < ID_LIMIT,
        ensures
            final(self).wf(),
            match r {
                Ok(u) => {
                    &&& !fault_in(old(self).fault_step, 1)
                    &&& u == (User {
                        id: old(self).next_id,
                        name: name,
                        description: description,
                        is_ai: true,
                        created_at: now,
                        updated_at: now,
                    })
                    &&& final(self).users@ == old(self).users@.push(u)
                    &&& final(self).next_id == old(self).next_id + 1
                    &&& final(self).chats == old(self).chats
                    &&& final(self).participants == old(self).participants
                    &&& final(self).conversations == old(self).conversations
                    &&& final(self).messages == old(self).messages
                    &&& final(self).receipts == old(self).receipts
                    &&& final(self).contact_groups == old(self).contact_groups
                    &&& final(self).contact_user_links == old(self).contact_user_links
                    &&& final(self).contacts == old(self).contacts
                    &&& final(self).agents == old(self).agents
                },
                Err(e) => {
                    &&& e == StoreError::DatabaseError
                    &&& fault_in(old(self).fault_step, 1)
                    &&& unchanged_tables(*old(self), *final(self))
                },
            },
    {
        self.create_user(name, description, true, now)
    }


    /// The store's first user, creating a default one when the table is
    /// empty: the identity a fresh client runs under.
    pub fn get_or_create_default_user(&mut self, now: i64) -> (r: Result<User, StoreError>)
        requires
            old(self).wf(),
            old(self).next_id < ID_LIMIT,
        ensures
            final(self).wf(),
            match r {
                Ok(u) => {
                    &&& (old(self).users@.len() > 0 ==> u == old(self).users@[0]
                        && unchanged_tables(*old(self), *final(self)))
                    &&& (old(self).users@.len() == 0 ==> u.id == old(self).next_id && u.is_ai
                        == false && final(self).users@ == old(self).users@.push(u) && final(self).next_id == old(self).next_id + 1)
                },
                Err(e) => {
                    &&& e == StoreError::DatabaseError
                    &&& old(self).users@.len() == 0 && fault_in(old(self).fault_step, 1)
                    &&& unchanged_tables(*old(self), *final(self))
                },
            },
    {
        if self.users.len() > 0 {
            proof {
                lemma_wf_unchanged(*old(self), *self);
            }
            return Ok(self.users[0].dup());
        }
        self.create_user("default user".to_string(), None, false, now)
    }

    /// Look a user up by id.
    pub fn get_user(&self, id: u64) -> (r: Result<User, StoreError>)
        requires
            self.wf(),
        ensures
            match r {
                Ok(u) => has_key(self.users@, id) && u == row_of(self.users@, id),
                Err(e) => e == StoreError::NotFound && !has_key(self.users@, id),
            },
    {
        match find_key(&self.users, id) {
            Some(i) => {
                proof {
                    lemma_key_index(self.users@, i as int);
                }
                Ok(self.users[i].dup())
            },
            None => Err(StoreError::NotFound),
        }
    }

    /// Update a user's name, description, or AI flag; absent fields keep
    /// their value.  Fails with `NotFound` when the user does not exist.
    pub fn update_user(
        &mut self,
        id: u64,
        name: Option<String>,
        description: Option<String>,
        is_ai: Option<bool>,
        now: i64,
    ) -> (r: Result<User, StoreError>)
        requires
            old(self).wf(),
        ensures
            final(self).wf(),
            match r {
                Ok(u) => {
                    &&& has_key(old(self).users@, id)
                    &&& !fault_in(old(self).fault_step, 1)
                    &&& u == (User {
                        id: id,
                        name: (match name {
                            Some(n) => n,
                            None => row_of(old(self).users@, id).name,
                        }),
                        description: (match description {
                            Some(d) => Some(d),
                            None => row_of(old(self).users@, id).description,
                        }),
                        is_ai: (match is_ai {
                            Some(a) => a,
                            None => row_of(old(self).users@, id).is_ai,
                        }),
                        created_at: row_of(old(self).users@, id).created_at,
                        updated_at: now,
                    })
                    &&& final(self).users@ == old(self).users@.update(
                        key_index(old(self).users@, id),
                        u,
                    )
                    &&& final(self).next_id == old(self).next_id
                    &&& final(self).chats == old(self).chats
                    &&& final(self).participants == old(self).participants
                    &&& final(self).conversations == old(self).conversations
                    &&& final(self).messages == old(self).messages
                    &&& final(self).receipts == old(self).receipts
                    &&& final(self).contact_groups == old(self).contact_groups
                    &&& final(self).contact_user_links == old(self).contact_user_links
                    &&& final(self).contacts == old(self).contacts
                    &&& final(self).agents == old(self).agents
                },
                Err(e) => {
                    &&& unchanged_tables(*old(self), *final(self))
                    &&& (e == StoreError::NotFound || e == StoreError::DatabaseError)
                    &&& (e == StoreError::NotFound <==> !has_key(old(self).users@, id))
                    &&& (e == StoreError::DatabaseError <==> has_key(old(self).users@, id)
                        && fault_in(old(self).fault_step, 1))
                },
            },
    {
        let i = match find_key(&self.users, id) {
            Some(i) => i,
            None => {
                proof {
                    lemma_wf_unchanged(*old(self), *self);
                }
                return Err(StoreError::NotFound);
            },
        };
        if self.consume_fault(1) {
            proof {
                lemma_wf_unchanged(*old(self), *self);
            }
            return Err(StoreError::DatabaseError);
        }
        proof {
            lemma_key_index(self.users@, i as int);
        }
        let row = &self.users[i];
        let new_row = User {
            id,
            name: (match name {
                Some(n) => n,
                None => row.name.clone(),
            }),
            description: (match description {
                Some(d) => Some(d),
                None => dup_opt_string(&row.description),
            }),
            is_ai: (match is_ai {
                Some(a) => a,
                None => row.is_ai,
            }),
            created_at: row.created_at,
            updated_at: now,
        };
        let out = new_row.dup();
        *vec_index_mut(&mut self.users, i) = new_row;
        proof {
            assert(self.participants_ok());
            assert(self.contacts_ok());
            assert(self.agents_ok());
            lemma_receipts_ok_same(*old(self), *self);
            lemma_wf_parts(*self);
        }
        Ok(out)
    }

    /// Delete a user.
    ///
    /// Fails with `NotFound` when the user does not exist and with
    /// `DatabaseError` while any participant row, contact (as owner),
    /// user link, or agent still references the user, as the foreign-key
    /// constraints of a relational store would.
    pub fn delete_user(&mut self, id: u64) -> (r: Result<(), StoreError>)
        requires
            old(self).wf(),
        ensures
            final(self).wf(),
            match r {
                Ok(()) => {
                    &&& has_key(old(self).users@, id)
                    &&& !old(self).some_participant_of_user(id)
                    &&& !old(self).some_contact_owned_by(id)
                    &&& !old(self).some_link_with_user(id)
                    &&& !old(self).some_agent_of_user(id)
                    &&& !fault_in(old(self).fault_step, 1)
                    &&& final(self).users@ == old(self).users@.remove(
                        key_index(old(self).users@, id),
                    )
                    &&& !has_key(final(self).users@, id)
                    &&& final(self).next_id == old(self).next_id
                    &&& final(self).chats == old(self).chats
                    &&& final(self).participants == old(self).participants
                    &&& final(self).conversations == old(self).conversations
                    &&& final(self).messages == old(self).messages
                    &&& final(self).receipts == old(self).receipts
                    &&& final(self).contact_groups == old(self).contact_groups
                    &&& final(self).contact_user_links == old(self).contact_user_links
                    &&& final(self).contacts == old(self).contacts
                    &&& final(self).agents == old(self).agents
                },
                Err(e) => {
                    &&& unchanged_tables(*old(self), *final(self))
                    &&& (e == StoreError::NotFound || e == StoreError::DatabaseError)
                    &&& (e == StoreError::NotFound <==> !has_key(old(self).users@, id))
                    &&& (e == StoreError::DatabaseError <==> has_key(old(self).users@, id) && (old(self).some_participant_of_user(id) || old(self).some_contact_owned_by(id) || old(self).some_link_with_user(id) || old(self).some_agent_of_user(id) || fault_in(
                        old(self).fault_step,
                        1,
                    )))
                },
            },
    {
        let i = match find_key(&self.users, id) {
            Some(i) => i,
            None => {
                proof {
                    lemma_wf_unchanged(*old(self), *self);
                }
                return Err(StoreError::NotFound);
            },
        };
        if self.participates_anywhere(id) || self.owns_any_contact(id) || self.user_has_links(id)
            || self.user_has_agents(id) {
            proof {
                lemma_wf_unchanged(*old(self), *self);
            }
            return Err(StoreError::DatabaseError);
        }
        if self.consume_fault(1) {
            proof {
                lemma_wf_unchanged(*old(self), *self);
            }
            return Err(StoreError::DatabaseError);
        }
        proof {
            lemma_key_index(self.users@, i as int);
        }
        self.users.remove(i);
        proof {
            assert(self.ids_ok());
            assert(self.participants_ok());
            assert(self.contacts_ok());
            assert(self.agents_ok());
            lemma_receipts_ok_same(*old(self), *self);
            lemma_wf_parts(*self);
        }
        Ok(())
    }

    /// Add a user to a chat.
    ///
    /// Fails with `NotFound` when chat or user are absent and with
    /// `AlreadyExists` when the membership pair already exists.
    pub fn add_participant(
        &mut self,
        chat_id: u64,
        user_id: u64,
        role: ParticipantRole,
        now: i64,
    ) -> (r: Result<ChatParticipant, StoreError>)
        requires
            old(self).wf(),
        ensures
            final(self).wf(),
            match r {
                Ok(p) => {
                    &&& has_key(old(self).chats@, chat_id)
                    &&& has_key(old(self).users@, user_id)
                    &&& !old(self).some_participant_pair(chat_id, user_id)
                    &&& !fault_in(old(self).fault_step, 1)
                    &&& p == (ChatParticipant {
                        chat_id: chat_id,
                        user_id: user_id,
                        role: role,
                        unread_count: 0,
                        last_read_message_id: None,
                        joined_at: now,
                    })
                    &&& final(self).participants@ == old(self).participants@.push(p)
                    &&& final(self).next_id == old(self).next_id
                    &&& final(self).users == old(self).users
                    &&& final(self).chats == old(self).chats
                    &&& final(self).conversations == old(self).conversations
                    &&& final(self).messages == old(self).messages
                    &&& final(self).receipts == old(self).receipts
                    &&& final(self).contact_groups == old(self).contact_groups
                    &&& final(self).contact_user_links == old(self).contact_user_links
                    &&& final(self).contacts == old(self).contacts
                    &&& final(self).agents == old(self).agents
                },
                Err(e) => {
                    &&& unchanged_tables(*old(self), *final(self))
                    &&& (e == StoreError::NotFound || e == StoreError::AlreadyExists || e
                        == StoreError::DatabaseError)
                    &&& (e == StoreError::NotFound <==> !(has_key(old(self).chats@, chat_id)
                        && has_key(old(self).users@, user_id)))
                    &&& (e == StoreError::AlreadyExists <==> has_key(old(self).chats@, chat_id)
                        && has_key(old(self).users@, user_id) && old(self).some_participant_pair(
                        chat_id,
                        user_id,
                    ))
                    &&& (e == StoreError::DatabaseError <==> has_key(old(self).chats@, chat_id)
                        && has_key(old(self).users@, user_id) && !old(self).some_participant_pair(
                        chat_id,
                        user_id,
                    ) && fault_in(old(self).fault_step, 1))
                },
            },
    {
        if find_key(&self.chats, chat_id).is_none() || find_key(&self.users, user_id).is_none() {
            proof {
                lemma_wf_unchanged(*old(self), *self);
            }
            return Err(StoreError::NotFound);
        }
        if self.find_participant(chat_id, user_id).is_some() {
            proof {
                lemma_wf_unchanged(*old(self), *self);
            }
            return Err(StoreError::AlreadyExists);
        }
        if self.consume_fault(1) {
            proof {
                lemma_wf_unchanged(*old(self), *self);
            }
            return Err(StoreError::DatabaseError);
        }
        let p = ChatParticipant {
            chat_id,
            user_id,
            role,
            unread_count: 0,
            last_read_message_id: None,
            joined_at: now,
        };
        let out = p.dup();
        self.participants.push(p);
        proof {
            let oldp = old(self).participants@;
            let newp = self.participants@;
            assert forall|i: int, j: int|
                0 <= i < j < newp.len() implies !(newp[i].chat_id == newp[j].chat_id
                && newp[i].user_id == newp[j].user_id) by {
                if j < newp.len() - 1 {
                    assert(!(oldp[i].chat_id == oldp[j].chat_id && oldp[i].user_id
                        == oldp[j].user_id));
                } else {
                    assert(!(oldp[i].chat_id == chat_id && oldp[i].user_id == user_id));
                }
            }
            assert(self.participants_ok());
            lemma_receipts_ok_same(*old(self), *self);
            lemma_wf_parts(*self);
        }
        Ok(out)
    }

    /// Remove a user from a chat; idempotent, removing nothing when the
    /// membership does not exist.
    pub fn remove_participant(&mut self, chat_id: u64, user_id: u64) -> (r: Result<
        (),
        StoreError,
    >)
        requires
            old(self).wf(),
        ensures
            final(self).wf(),
            match r {
                Ok(()) => {
                    &&& !fault_in(old(self).fault_step, 1)
                    &&& !final(self).some_participant_pair(chat_id, user_id)
                    &&& (old(self).some_participant_pair(chat_id, user_id) ==> final(self).participants@ == old(self).participants@.remove(
                        pair_index(old(self).participants@, chat_id, user_id),
                    ))
                    &&& (!old(self).some_participant_pair(chat_id, user_id) ==> final(self).participants@ == old(self).participants@)
                    &&& final(self).next_id == old(self).next_id
                    &&& final(self).users == old(self).users
                    &&& final(self).chats == old(self).chats
                    &&& final(self).conversations == old(self).conversations
                    &&& final(self).messages == old(self).messages
                    &&& final(self).receipts == old(self).receipts
                    &&& final(self).contact_groups == old(self).contact_groups
                    &&& final(self).contact_user_links == old(self).contact_user_links
                    &&& final(self).contacts == old(self).contacts
                    &&& final(self).agents == old(self).agents
                },
                Err(e) => {
                    &&& e == StoreError::DatabaseError
                    &&& fault_in(old(self).fault_step, 1)
                    &&& unchanged_tables(*old(self), *final(self))
                },
            },
    {
        if self.consume_fault(1) {
            proof {
                lemma_wf_unchanged(*old(self), *self);
            }
            return Err(StoreError::DatabaseError);
        }
        match self.find_participant(chat_id, user_id) {
            Some(i) => {
                self.participants.remove(i);
                proof {
                    let oldp = old(self).participants@;
                    let newp = self.participants@;
                    let iw: int = i as int;
                    assert(old(self).some_participant_pair(chat_id, user_id));
                    let j = pair_index(oldp, chat_id, user_id);
                    assert(0 <= j < oldp.len() && oldp[j].chat_id == chat_id && oldp[j].user_id
                        == user_id);
                    assert(j == iw);
                    assert forall|p: int, q: int|
                        0 <= p < q < newp.len() implies !(newp[p].chat_id == newp[q].chat_id
                        && newp[p].user_id == newp[q].user_id) by {
                        let p2: int = if p < iw {
                            p
                        } else {
                            p + 1
                        };
                        let q2: int = if q < iw {
                            q
                        } else {
                            q + 1
                        };
                        assert(!(oldp[p2].chat_id == oldp[q2].chat_id && oldp[p2].user_id
                            == oldp[q2].user_id));
                    }
                    assert forall|k: int| 0 <= k < newp.len() implies !((
                    #[trigger] newp[k]).chat_id == chat_id && newp[k].user_id == user_id) by {
                        let k2: int = if k < iw {
                            k
                        } else {
                            k + 1
                        };
                        assert(newp[k] == oldp[k2]);
                        if k2 != iw {
                            assert(!(oldp[k2].chat_id == oldp[iw].chat_id && oldp[k2].user_id
                                == oldp[iw].user_id));
                        }
                    }
                    assert(self.participants_ok());
                    lemma_receipts_ok_same(*old(self), *self);
                    lemma_wf_parts(*self);
                }
                Ok(())
            },
            None => {
                proof {
                    lemma_wf_unchanged(*old(self), *self);
                    assert(self.participants@ == old(self).participants@);
                }
                Ok(())
            },
        }
    }

    /// Rename or retype a chat, leaving its last-message cache alone.
    /// Fails with `NotFound` when the chat does not exist.
    pub fn update_chat(&mut self, id: u64, title: String, chat_type: ChatType, now: i64) -> (r:
        Result<Chat, StoreError>)
        requires
            old(self).wf(),
        ensures
            final(self).wf(),
            match r {
                Ok(c) => {
                    &&& has_key(old(self).chats@, id)
                    &&& !fault_in(old(self).fault_step, 1)
                    &&& c == (Chat {
                        id: id,
                        title: title,
                        chat_type: chat_type,
                        last_message_id: row_of(old(self).chats@, id).last_message_id,
                        last_message_content: row_of(old(self).chats@, id).last_message_content,
                        last_message_time: row_of(old(self).chats@, id).last_message_time,
                        last_message_sender: row_of(old(self).chats@, id).last_message_sender,
                        last_message_type: row_of(old(self).chats@, id).last_message_type,
                        created_at: row_of(old(self).chats@, id).created_at,
                        updated_at: now,
                    })
                    &&& final(self).chats@ == old(self).chats@.update(
                        key_index(old(self).chats@, id),
                        c,
                    )
                    &&& final(self).next_id == old(self).next_id
                    &&& final(self).users == old(self).users
                    &&& final(self).participants == old(self).participants
                    &&& final(self).conversations == old(self).conversations
                    &&& final(self).messages == old(self).messages
                    &&& final(self).receipts == old(self).receipts
                    &&& final(self).contact_groups == old(self).contact_groups
                    &&& final(self).contact_user_links == old(self).contact_user_links
                    &&& final(self).contacts == old(self).contacts
                    &&& final(self).agents == old(self).agents
                },
                Err(e) => {
                    &&& unchanged_tables(*old(self), *final(self))
                    &&& (e == StoreError::NotFound || e == StoreError::DatabaseError)
                    &&& (e == StoreError::NotFound <==> !has_key(old(self).chats@, id))
                    &&& (e == StoreError::DatabaseError <==> has_key(old(self).chats@, id)
                        && fault_in(old(self).fault_step, 1))
                },
            },
    {
        let i = match find_key(&self.chats, id) {
            Some(i) => i,
            None => {
                proof {
                    lemma_wf_unchanged(*old(self), *self);
                }
                return Err(StoreError::NotFound);
            },
        };
        if self.consume_fault(1) {
            proof {
                lemma_wf_unchanged(*old(self), *self);
            }
            return Err(StoreError::DatabaseError);
        }
        proof {
            lemma_key_index(self.chats@, i as int);
        }
        let row = &self.chats[i];
        let new_row = Chat {
            id,
            title,
            chat_type,
            last_message_id: dup_opt_u64(&row.last_message_id),
            last_message_content: dup_opt_string(&row.last_message_content),
            last_message_time: dup_opt_i64(&row.last_message_time),
            last_message_sender: dup_opt_string(&row.last_message_sender),
            last_message_type: dup_opt_string(&row.last_message_type),
            created_at: row.created_at,
            updated_at: now,
        };
        let out = new_row.dup();
        *vec_index_mut(&mut self.chats, i) = new_row;
        proof {
            assert(self.participants_ok());
            assert(self.conversations_ok());
            lemma_receipts_ok_same(*old(self), *self);
            lemma_wf_parts(*self);
        }
        Ok(out)
    }

    /// Create the conversation of a chat.
    ///
    /// Fails with `NotFound` when the chat does not exist and with
    /// `AlreadyExists` when the chat already has its conversation.
    pub fn create_conversation(&mut self, chat_id: u64, now: i64) -> (r: Result<
        Conversation,
        StoreError,
    >)
        requires
            old(self).wf(),
            old(self).next_id < ID_LIMIT,
        ensures
            final(self).wf(),
            match r {
                Ok(c) => {
                    &&& has_key(old(self).chats@, chat_id)
                    &&& !old(self).some_conversation_of_chat(chat_id)
                    &&& !fault_in(old(self).fault_step, 1)
                    &&& c == (Conversation {
                        id: old(self).next_id,
                        chat_id: chat_id,
                        created_at: now,
                    })
                    &&& final(self).conversations@ == old(self).conversations@.push(c)
                    &&& final(self).next_id == old(self).next_id + 1
                    &&& final(self).users == old(self).users
                    &&& final(self).chats == old(self).chats
                    &&& final(self).participants == old(self).participants
                    &&& final(self).messages == old(self).messages
                    &&& final(self).receipts == old(self).receipts
                    &&& final(self).contact_groups == old(self).contact_groups
                    &&& final(self).contact_user_links == old(self).contact_user_links
                    &&& final(self).contacts == old(self).contacts
                    &&& final(self).agents == old(self).agents
                },
                Err(e) => {
                    &&& unchanged_tables(*old(self), *final(self))
                    &&& (e == StoreError::NotFound || e == StoreError::AlreadyExists || e
                        == StoreError::DatabaseError)
                    &&& (e == StoreError::NotFound <==> !has_key(old(self).chats@, chat_id))
                    &&& (e == StoreError::AlreadyExists <==> has_key(old(self).chats@, chat_id)
                        && old(self).some_conversation_of_chat(chat_id))
                    &&& (e == StoreError::DatabaseError <==> has_key(old(self).chats@, chat_id)
                        && !old(self).some_conversation_of_chat(chat_id) && fault_in(
                        old(self).fault_step,
                        1,
                    ))
                },
            },
    {
        if find_key(&self.chats, chat_id).is_none() {
            proof {
                lemma_wf_unchanged(*old(self), *self);
            }
            return Err(StoreError::NotFound);
        }
        if self.find_conversation_of_chat(chat_id).is_some() {
            proof {
                lemma_wf_unchanged(*old(self), *self);
            }
            return Err(StoreError::AlreadyExists);
        }
        if self.consume_fault(1) {
            proof {
                lemma_wf_unchanged(*old(self), *self);
            }
            return Err(StoreError::DatabaseError);
        }
        let id = self.alloc_id();
        let conv = Conversation { id, chat_id, created_at: now };
        let out = conv.dup();
        self.conversations.push(conv);
        proof {
            assert(self.participants_ok());
            assert(self.conversations_ok());
            assert(self.messages_ok());
            lemma_receipts_ok_same(*old(self), *self);
            lemma_wf_parts(*self);
        }
        Ok(out)
    }
}


} // verus!
