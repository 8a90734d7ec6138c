use vstd::prelude::*;

use crate::error::StoreError;
use crate::keys::find_key;
use crate::keys::has_key;
use crate::keys::key_index;
use crate::keys::lemma_key_index;
use crate::keys::row_of;
use crate::keys::Keyed;
use crate::rows::Agent;
use crate::rows::AgentParams;
use crate::rows::Contact;
use crate::rows::ContactGroup;
use crate::rows::ChatParticipant;
use crate::rows::ChatType;
use crate::rows::Chat;
use crate::rows::ContactUserLink;
use crate::rows::Conversation;
use crate::rows::Message;
use crate::rows::MessageReceipt;
use crate::store::fault_in;
use crate::store::lemma_receipts_ok_same;
use crate::store::lemma_wf_parts;
use crate::store::lemma_wf_unchanged;
use crate::messaging::lemma_filter_congruent;
use crate::store::unchanged_tables;
use crate::store::Store;
use crate::store::ID_LIMIT;

verus! {

broadcast use {
    crate::keys::group_key_lemmas,
    vstd::seq_lib::group_filter_ensures,
    vstd::seq_lib::group_seq_properties,
    Seq::lemma_filter_push,
    Seq::lemma_filter_len_push,
    Seq::filter_distributes_over_add,
};

/// Some membership row of `parts` is the pair `(chat_id, user_id)`.
pub open spec fn some_pair_in(parts: Seq<ChatParticipant>, chat_id: u64, user_id: u64) -> bool {
    exists|i: int|
        0 <= i < parts.len() && (#[trigger] parts[i]).chat_id == chat_id && parts[i].user_id
            == user_id
}

/// Chat `cid` is torn down when a contact between `a` and `b` is
/// deleted: it is an individual chat that both participate in.
pub open spec fn chat_torn(
    chats: Seq<Chat>,
    parts: Seq<ChatParticipant>,
    cid: u64,
    a: u64,
    b: u64,
) -> bool {
    exists|i: int|
        0 <= i < chats.len() && (#[trigger] chats[i]).id == cid && chats[i].chat_type
            == ChatType::Individual && some_pair_in(parts, cid, a) && some_pair_in(parts, cid, b)
}

/// The conversation `conv_id` belongs to a torn-down chat.
pub open spec fn conv_torn(
    chats: Seq<Chat>,
    parts: Seq<ChatParticipant>,
    convs: Seq<Conversation>,
    conv_id: u64,
    a: u64,
    b: u64,
) -> bool {
    exists|i: int|
        0 <= i < convs.len() && (#[trigger] convs[i]).id == conv_id && chat_torn(
            chats,
            parts,
            convs[i].chat_id,
            a,
            b,
        )
}

/// The message `mid` belongs to a torn-down conversation.
pub open spec fn msg_torn(
    chats: Seq<Chat>,
    parts: Seq<ChatParticipant>,
    convs: Seq<Conversation>,
    msgs: Seq<Message>,
    mid: u64,
    a: u64,
    b: u64,
) -> bool {
    exists|i: int|
        0 <= i < msgs.len() && (#[trigger] msgs[i]).id == mid && conv_torn(
            chats,
            parts,
            convs,
            msgs[i].conversation_id,
            a,
            b,
        )
}

/// The message belongs to a conversation of one of the `doomed` chats.
pub open spec fn message_gone(convs: Seq<Conversation>, doomed: Seq<u64>, m: Message) -> bool {
    exists|k: int|
        0 <= k < convs.len() && (#[trigger] convs[k]).id == m.conversation_id && doomed.contains(
            convs[k].chat_id,
        )
}

/// The receipt belongs to a message of one of the `doomed` chats.
pub open spec fn receipt_gone(
    msgs: Seq<Message>,
    convs: Seq<Conversation>,
    doomed: Seq<u64>,
    r: MessageReceipt,
) -> bool {
    exists|k: int|
        0 <= k < msgs.len() && (#[trigger] msgs[k]).id == r.message_id && message_gone(
            convs,
            doomed,
            msgs[k],
        )
}

/// Whether `v` holds `x`.
pub fn vec_contains_u64(v: &Vec<u64>, x: u64) -> (b: bool)
    ensures
        b == v@.contains(x),
{
    let n = v.len();
    let mut i: usize = 0;
    while i < n
        invariant
            i <= n,
            n == v@.len(),
            forall|k: int| 0 <= k < i ==> v@[k] != x,
        decreases n - i,
    {
        if v[i] == x {
            return true;
        }
        i += 1;
    }
    false
}

/// The agent row that the provisioning pipeline writes for `params`,
/// linked to the synthetic user `uid`.
pub open spec fn provisioned_agent(params: AgentParams, aid: u64, uid: u64, now: i64) -> Agent {
    Agent {
        id: aid,
        name: params.name,
        model_name: params.model_name,
        system_prompt: params.system_prompt,
        temperature_milli: params.temperature_milli,
        max_tokens: params.max_tokens,
        top_p_milli: params.top_p_milli,
        avatar_url: params.avatar_url,
        description: params.description,
        is_streaming: params.is_streaming,
        user_id: Some(uid),
        created_at: now,
        updated_at: now,
    }
}

/// The synthetic user row that the provisioning pipeline writes.
pub open spec fn provisioned_user(params: AgentParams, uid: u64, now: i64) -> crate::rows::User {
    crate::rows::User {
        id: uid,
        name: params.name,
        description: params.description,
        is_ai: true,
        created_at: now,
        updated_at: now,
    }
}

impl Store {
    /// Create a contact group.
    pub fn create_contact_group(&mut self, name: String, description: Option<String>, now: i64) -> (r:
        Result<ContactGroup, StoreError>)
        requires
            old(self).wf(),
            old(self).next_id < ID_LIMIT,
        ensures
            final(self).wf(),
            match r {
                Ok(g) => {
                    &&& !fault_in(old(self).fault_step, 1)
                    &&& g == (ContactGroup {
                        id: old(self).next_id,
                        name: name,
                        description: description,
                        created_at: now,
                        updated_at: now,
                    })
                    &&& final(self).contact_groups@ == old(self).contact_groups@.push(g)
                    &&& final(self).next_id == old(self).next_id + 1
                    &&& final(self).users == old(self).users
                    &&& final(self).chats == old(self).chats
                    &&& final(self).participants == old(self).participants
                    &&& final(self).conversations == old(self).conversations
                    &&& final(self).messages == old(self).messages
                    &&& final(self).receipts == old(self).receipts
                    &&& final(self).contact_user_links == old(self).contact_user_links
                    &&& final(self).contacts == old(self).contacts
                    &&& final(self).agents == old(self).agents
                },
                Err(e) => {
                    &&& e == StoreError::DatabaseError
                    &&& fault_in(old(self).fault_step, 1)
                    &&& unchanged_tables(*old(self), *final(self))
                },
            },
    {
        if self.consume_fault(1) {
            proof {
                lemma_wf_unchanged(*old(self), *self);
            }
            return Err(StoreError::DatabaseError);
        }
        let id = self.alloc_id();
        let group = ContactGroup { id, name, description, created_at: now, updated_at: now };
        let out = group.dup();
        self.contact_groups.push(group);
        proof {
            assert(self.participants_ok());
            assert(self.contacts_ok());
            lemma_receipts_ok_same(*old(self), *self);
            lemma_wf_parts(*self);
        }
        Ok(out)
    }

    /// Create a user link wrapping `user_id`.  Fails with `NotFound`
    /// when the user does not exist.
    pub fn create_contact_user_link(&mut self, user_id: u64, now: i64) -> (r: Result<
        ContactUserLink,
        StoreError,
    >)
        requires
            old(self).wf(),
            old(self).next_id < ID_LIMIT,
        ensures
            final(self).wf(),
            match r {
                Ok(l) => {
                    &&& has_key(old(self).users@, user_id)
                    &&& !fault_in(old(self).fault_step, 1)
                    &&& l == (ContactUserLink {
                        id: old(self).next_id,
                        user_id: user_id,
                        created_at: now,
                    })
                    &&& final(self).contact_user_links@ == old(self).contact_user_links@.push(l)
                    &&& final(self).next_id == old(self).next_id + 1
                    &&& final(self).users == old(self).users
                    &&& final(self).chats == old(self).chats
                    &&& final(self).participants == old(self).participants
                    &&& final(self).conversations == old(self).conversations
                    &&& final(self).messages == old(self).messages
                    &&& final(self).receipts == old(self).receipts
                    &&& final(self).contact_groups == old(self).contact_groups
                    &&& final(self).contacts == old(self).contacts
                    &&& final(self).agents == old(self).agents
                },
                Err(e) => {
                    &&& unchanged_tables(*old(self), *final(self))
                    &&& (e == StoreError::NotFound || e == StoreError::DatabaseError)
                    &&& (e == StoreError::NotFound <==> !has_key(old(self).users@, user_id))
                    &&& (e == StoreError::DatabaseError <==> has_key(old(self).users@, user_id)
                        && fault_in(old(self).fault_step, 1))
                },
            },
    {
        if find_key(&self.users, user_id).is_none() {
            proof {
                lemma_wf_unchanged(*old(self), *self);
            }
            return Err(StoreError::NotFound);
        }
        if self.consume_fault(1) {
            proof {
                lemma_wf_unchanged(*old(self), *self);
            }
            return Err(StoreError::DatabaseError);
        }
        let id = self.alloc_id();
        let link = ContactUserLink { id, user_id, created_at: now };
        let out = link.dup();
        self.contact_user_links.push(link);
        proof {
            assert(self.participants_ok());
            assert(self.contacts_ok());
            lemma_receipts_ok_same(*old(self), *self);
            lemma_wf_parts(*self);
        }
        Ok(out)
    }

    /// Create a contact: a named pointer, owned by `owner_id`, into a
    /// user link and a group.  Fails with `NotFound` when the group, the
    /// link, or the owner is absent.
    pub fn create_contact(
        &mut self,
        name: String,
        description: Option<String>,
        group_id: u64,
        user_link_id: u64,
        owner_id: u64,
        now: i64,
    ) -> (r: Result<Contact, StoreError>)
        requires
            old(self).wf(),
            old(self).next_id < ID_LIMIT,
        ensures
            final(self).wf(),
            ({
                let valid = has_key(old(self).contact_groups@, group_id) && has_key(
                    old(self).contact_user_links@,
                    user_link_id,
                ) && has_key(old(self).users@, owner_id);
                match r {
                    Ok(c) => {
                        &&& valid
                        &&& !fault_in(old(self).fault_step, 1)
                        &&& c == (Contact {
                            id: old(self).next_id,
                            name: name,
                            description: description,
                            group_id: group_id,
                            owner_id: owner_id,
                            user_link_id: user_link_id,
                            created_at: now,
                            updated_at: now,
                        })
                        &&& final(self).contacts@ == old(self).contacts@.push(c)
                        &&& final(self).next_id == old(self).next_id + 1
                        &&& final(self).users == old(self).users
                        &&& final(self).chats == old(self).chats
                        &&& final(self).participants == old(self).participants
                        &&& final(self).conversations == old(self).conversations
                        &&& final(self).messages == old(self).messages
                        &&& final(self).receipts == old(self).receipts
                        &&& final(self).contact_groups == old(self).contact_groups
                        &&& final(self).contact_user_links == old(self).contact_user_links
                        &&& final(self).agents == old(self).agents
                    },
                    Err(e) => {
                        &&& unchanged_tables(*old(self), *final(self))
                        &&& (e == StoreError::NotFound || e == StoreError::DatabaseError)
                        &&& (e == StoreError::NotFound <==> !valid)
                        &&& (e == StoreError::DatabaseError <==> valid && fault_in(
                            old(self).fault_step,
                            1,
                        ))
                    },
                }
            }),
    {
        if find_key(&self.contact_groups, group_id).is_none() || find_key(
            &self.contact_user_links,
            user_link_id,
        ).is_none() || find_key(&self.users, owner_id).is_none() {
            proof {
                lemma_wf_unchanged(*old(self), *self);
            }
            return Err(StoreError::NotFound);
        }
        if self.consume_fault(1) {
            proof {
                lemma_wf_unchanged(*old(self), *self);
            }
            return Err(StoreError::DatabaseError);
        }
        let id = self.alloc_id();
        let contact = Contact {
            id,
            name,
            description,
            group_id,
            owner_id,
            user_link_id,
            created_at: now,
            updated_at: now,
        };
        let out = contact.dup();
        self.contacts.push(contact);
        proof {
            assert(self.participants_ok());
            assert(self.contacts_ok());
            lemma_receipts_ok_same(*old(self), *self);
            lemma_wf_parts(*self);
        }
        Ok(out)
    }

    /// The agent linked to `user_id`, if any.
    pub fn find_agent_by_user_id(&self, user_id: u64) -> (r: Option<Agent>)
        ensures
            match r {
                Some(a) => exists|i: int|
                    0 <= i < self.agents@.len() && self.agents@[i] == a && a.user_id == Some(
                        user_id,
                    ),
                None => !self.some_agent_of_user(user_id),
            },
    {
        let n = self.agents.len();
        let mut i: usize = 0;
        while i < n
            invariant
                i <= n,
                n == self.agents@.len(),
                forall|k: int|
                    0 <= k < i ==> (#[trigger] self.agents@[k]).user_id != Some(user_id),
            decreases n - i,
        {
            match self.agents[i].user_id {
                Some(u) => if u == user_id {
                    return Some(self.agents[i].dup());
                },
                None => {},
            }
            i += 1;
        }
        None
    }

    /// Provision an AI contact atomically: insert the agent, insert the
    /// synthetic AI user, link the agent to it, insert the user link, and
    /// insert the contact — five steps in one transaction.
    ///
    /// If any step fails — a missing group or owner, as a foreign-key
    /// violation would surface, or an injected fault at any of the five
    /// write statements — the whole chain aborts and the store holds
    /// none of the attempt's rows.
    pub fn create_ai_contact(
        &mut self,
        params: AgentParams,
        contact_description: Option<String>,
        group_id: u64,
        owner_user_id: u64,
        now: i64,
    ) -> (r: Result<Contact, StoreError>)
        requires
            old(self).wf(),
            old(self).next_id + 4 < ID_LIMIT,
        ensures
            final(self).wf(),
            ({
                let pre = *old(self);
                let aid = pre.next_id;
                let uid = (pre.next_id + 1) as u64;
                let lid = (pre.next_id + 2) as u64;
                let ctid = (pre.next_id + 3) as u64;
                let valid = has_key(pre.contact_groups@, group_id) && has_key(
                    pre.users@,
                    owner_user_id,
                );
                match r {
                    Ok(c) => {
                        &&& valid
                        &&& !fault_in(pre.fault_step, 5)
                        &&& c == (Contact {
                            id: ctid,
                            name: params.name,
                            description: contact_description,
                            group_id: group_id,
                            owner_id: owner_user_id,
                            user_link_id: lid,
                            created_at: now,
                            updated_at: now,
                        })
                        &&& final(self).contacts@ == pre.contacts@.push(c)
                        &&& final(self).agents@ == pre.agents@.push(
                            provisioned_agent(params, aid, uid, now),
                        )
                        &&& final(self).users@ == pre.users@.push(provisioned_user(params, uid, now))
                        &&& final(self).contact_user_links@ == pre.contact_user_links@.push(
                            ContactUserLink { id: lid, user_id: uid, created_at: now },
                        )
                        &&& final(self).next_id == pre.next_id + 4
                        &&& final(self).chats == pre.chats
                        &&& final(self).participants == pre.participants
                        &&& final(self).conversations == pre.conversations
                        &&& final(self).messages == pre.messages
                        &&& final(self).receipts == pre.receipts
                        &&& final(self).contact_groups == pre.contact_groups
                    },
                    Err(e) => {
                        &&& e == StoreError::DatabaseError
                        &&& !valid || fault_in(pre.fault_step, 5)
                        &&& unchanged_tables(pre, *final(self))
                    },
                }
            }),
    {
        if find_key(&self.contact_groups, group_id).is_none() || find_key(
            &self.users,
            owner_user_id,
        ).is_none() {
            proof {
                lemma_wf_unchanged(*old(self), *self);
            }
            return Err(StoreError::DatabaseError);
        }
        if self.consume_fault(5) {
            proof {
                lemma_wf_unchanged(*old(self), *self);
            }
            return Err(StoreError::DatabaseError);
        }
        let aid = self.alloc_id();
        let agent = Agent {
            id: aid,
            name: params.name.clone(),
            model_name: params.model_name,
            system_prompt: params.system_prompt,
            temperature_milli: params.temperature_milli,
            max_tokens: crate::rows::dup_opt_u32(&params.max_tokens),
            top_p_milli: crate::rows::dup_opt_u32(&params.top_p_milli),
            avatar_url: crate::rows::dup_opt_string(&params.avatar_url),
            description: crate::rows::dup_opt_string(&params.description),
            is_streaming: params.is_streaming,
            user_id: None,
            created_at: now,
            updated_at: now,
        };
        let ai = self.agents.len();
        self.agents.push(agent);
        let uid = self.alloc_id();
        let user = crate::rows::User {
            id: uid,
            name: params.name.clone(),
            description: crate::rows::dup_opt_string(&params.description),
            is_ai: true,
            created_at: now,
            updated_at: now,
        };
        self.users.push(user);
        let arow = &self.agents[ai];
        let linked_agent = Agent {
            id: arow.id,
            name: arow.name.clone(),
            model_name: arow.model_name.clone(),
            system_prompt: arow.system_prompt.clone(),
            temperature_milli: arow.temperature_milli,
            max_tokens: crate::rows::dup_opt_u32(&arow.max_tokens),
            top_p_milli: crate::rows::dup_opt_u32(&arow.top_p_milli),
            avatar_url: crate::rows::dup_opt_string(&arow.avatar_url),
            description: crate::rows::dup_opt_string(&arow.description),
            is_streaming: arow.is_streaming,
            user_id: Some(uid),
            created_at: arow.created_at,
            updated_at: now,
        };
        *vstd::std_specs::vec::vec_index_mut(&mut self.agents, ai) = linked_agent;
        let lid = self.alloc_id();
        let link = ContactUserLink { id: lid, user_id: uid, created_at: now };
        self.contact_user_links.push(link);
        let ctid = self.alloc_id();
        let contact = Contact {
            id: ctid,
            name: params.name,
            description: contact_description,
            group_id,
            owner_id: owner_user_id,
            user_link_id: lid,
            created_at: now,
            updated_at: now,
        };
        let out = contact.dup();
        self.contacts.push(contact);
        proof {
            let pre = *old(self);
            assert(self.agents@ =~= pre.agents@.push(
                provisioned_agent(params, pre.next_id, (pre.next_id + 1) as u64, now),
            ));
            assert(self.users@ == pre.users@.push(
                provisioned_user(params, (pre.next_id + 1) as u64, now),
            ));
            assert(self.participants_ok()) by {
                assert forall|i: int| 0 <= i < self.participants@.len() implies has_key(
                    self.users@,
                    (#[trigger] self.participants@[i]).user_id,
                ) by {
                    assert(has_key(pre.users@, pre.participants@[i].user_id));
                }
            }
            assert(self.contacts_ok()) by {
                assert forall|i: int|
                    0 <= i < self.contacts@.len() implies has_key(
                    self.contact_groups@,
                    (#[trigger] self.contacts@[i]).group_id,
                ) && has_key(self.users@, self.contacts@[i].owner_id) && has_key(
                    self.contact_user_links@,
                    self.contacts@[i].user_link_id,
                ) by {
                    if i < pre.contacts@.len() {
                        assert(has_key(pre.contact_groups@, pre.contacts@[i].group_id));
                        assert(has_key(pre.users@, pre.contacts@[i].owner_id));
                        assert(has_key(pre.contact_user_links@, pre.contacts@[i].user_link_id));
                    }
                }
            }
            assert(self.agents_ok()) by {
                assert forall|i: int|
                    0 <= i < self.agents@.len() implies match (
                #[trigger] self.agents@[i]).user_id {
                    Some(u) => has_key(self.users@, u),
                    None => true,
                } by {
                    if i < pre.agents@.len() {
                        assert(self.agents@[i] == pre.agents@[i]);
                        match pre.agents@[i].user_id {
                            Some(u) => {
                                assert(has_key(pre.users@, u));
                            },
                            None => {},
                        }
                    } else {
                        assert(self.users@[pre.users@.len() as int].key_spec() == (pre.next_id
                            + 1) as u64);
                    }
                }
            }
            assert(self.ids_ok());
            assert(self.conversations_ok());
            assert(self.messages_ok());
            lemma_receipts_ok_same(pre, *self);
            lemma_wf_parts(*self);
        }
        Ok(out)
    }

    /// The ids of every chat that deleting a contact between `a` and `b`
    /// tears down.
    fn collect_doomed_chats(&self, a: u64, b: u64) -> (d: Vec<u64>)
        ensures
            forall|cid: u64| #[trigger] d@.contains(cid) <==> chat_torn(
                self.chats@,
                self.participants@,
                cid,
                a,
                b,
            ),
    {
        let n = self.chats.len();
        let mut d: Vec<u64> = Vec::new();
        let mut i: usize = 0;
        while i < n
            invariant
                i <= n,
                n == self.chats@.len(),
                forall|k: int|
                    0 <= k < d@.len() ==> chat_torn(
                        self.chats@,
                        self.participants@,
                        #[trigger] d@[k],
                        a,
                        b,
                    ),
                forall|k: int|
                    0 <= k < i && (#[trigger] self.chats@[k]).chat_type == ChatType::Individual
                        && some_pair_in(self.participants@, self.chats@[k].id, a) && some_pair_in(
                        self.participants@,
                        self.chats@[k].id,
                        b,
                    ) ==> d@.contains(self.chats@[k].id),
            decreases n - i,
        {
            let individual = matches!(self.chats[i].chat_type, ChatType::Individual);
            let pa = self.find_participant(self.chats[i].id, a).is_some();
            let pb = self.find_participant(self.chats[i].id, b).is_some();
            proof {
                if !pa {
                    assert(!some_pair_in(self.participants@, self.chats@[i as int].id, a));
                }
                if !pb {
                    assert(!some_pair_in(self.participants@, self.chats@[i as int].id, b));
                }
            }
            if individual && pa && pb {
                let cid = self.chats[i].id;
                d.push(cid);
                proof {
                    assert(chat_torn(self.chats@, self.participants@, cid, a, b)) by {
                        assert(some_pair_in(self.participants@, cid, a));
                        assert(some_pair_in(self.participants@, cid, b));
                    }
                    assert forall|k: int| 0 <= k < d@.len() implies chat_torn(
                        self.chats@,
                        self.participants@,
                        #[trigger] d@[k],
                        a,
                        b,
                    ) by {
                        if k < d@.len() - 1 {
                            assert(chat_torn(self.chats@, self.participants@, d@[k], a, b));
                        }
                    }
                }
            }
            i += 1;
        }
        proof {
            assert forall|cid: u64| #[trigger] d@.contains(cid) implies chat_torn(
                self.chats@,
                self.participants@,
                cid,
                a,
                b,
            ) by {
                let k = choose|k: int| 0 <= k < d@.len() && d@[k] == cid;
                assert(chat_torn(self.chats@, self.participants@, d@[k], a, b));
            }
            assert forall|cid: u64| chat_torn(
                self.chats@,
                self.participants@,
                cid,
                a,
                b,
            ) implies #[trigger] d@.contains(cid) by {
                let k = choose|k: int|
                    0 <= k < self.chats@.len() && (#[trigger] self.chats@[k]).id == cid
                        && self.chats@[k].chat_type == ChatType::Individual && some_pair_in(
                        self.participants@,
                        cid,
                        a,
                    ) && some_pair_in(self.participants@, cid, b);
                assert(d@.contains(self.chats@[k].id));
            }
        }
        d
    }

    /// Delete every membership row of the doomed chats.
    fn purge_participants_of(&mut self, doomed: &Vec<u64>)
        ensures
            final(self).participants@ == old(self).participants@.filter(
                |p: ChatParticipant| !doomed@.contains(p.chat_id),
            ),
            final(self).users == old(self).users,
            final(self).chats == old(self).chats,
            final(self).conversations == old(self).conversations,
            final(self).messages == old(self).messages,
            final(self).receipts == old(self).receipts,
            final(self).contact_groups == old(self).contact_groups,
            final(self).contact_user_links == old(self).contact_user_links,
            final(self).contacts == old(self).contacts,
            final(self).agents == old(self).agents,
            final(self).next_id == old(self).next_id,
            final(self).fault_step == old(self).fault_step,
    {
        let ghost pred = |p: ChatParticipant| !doomed@.contains(p.chat_id);
        let n = self.participants.len();
        let mut kept: Vec<ChatParticipant> = Vec::new();
        let mut i: usize = 0;
        while i < n
            invariant
                i <= n,
                n == self.participants@.len(),
                kept@ == self.participants@.take(i as int).filter(pred),
                pred == (|p: ChatParticipant| !doomed@.contains(p.chat_id)),
            decreases n - i,
        {
            proof {
                let pref = self.participants@.take(i as int);
                let elem = self.participants@[i as int];
                assert(self.participants@.take(i as int + 1) =~= pref.push(elem));
            }
            if !vec_contains_u64(doomed, self.participants[i].chat_id) {
                kept.push(self.participants[i].dup());
            }
            i += 1;
        }
        proof {
            assert(self.participants@.take(n as int) =~= self.participants@);
        }
        self.participants = kept;
    }

    /// Delete every conversation of the doomed chats.
    fn purge_conversations_of(&mut self, doomed: &Vec<u64>)
        ensures
            final(self).conversations@ == old(self).conversations@.filter(
                |v: Conversation| !doomed@.contains(v.chat_id),
            ),
            final(self).users == old(self).users,
            final(self).chats == old(self).chats,
            final(self).participants == old(self).participants,
            final(self).messages == old(self).messages,
            final(self).receipts == old(self).receipts,
            final(self).contact_groups == old(self).contact_groups,
            final(self).contact_user_links == old(self).contact_user_links,
            final(self).contacts == old(self).contacts,
            final(self).agents == old(self).agents,
            final(self).next_id == old(self).next_id,
            final(self).fault_step == old(self).fault_step,
    {
        let ghost pred = |v: Conversation| !doomed@.contains(v.chat_id);
        let n = self.conversations.len();
        let mut kept: Vec<Conversation> = Vec::new();
        let mut i: usize = 0;
        while i < n
            invariant
                i <= n,
                n == self.conversations@.len(),
                kept@ == self.conversations@.take(i as int).filter(pred),
                pred == (|v: Conversation| !doomed@.contains(v.chat_id)),
            decreases n - i,
        {
            proof {
                let pref = self.conversations@.take(i as int);
                let elem = self.conversations@[i as int];
                assert(self.conversations@.take(i as int + 1) =~= pref.push(elem));
            }
            if !vec_contains_u64(doomed, self.conversations[i].chat_id) {
                kept.push(self.conversations[i].dup());
            }
            i += 1;
        }
        proof {
            assert(self.conversations@.take(n as int) =~= self.conversations@);
        }
        self.conversations = kept;
    }

    /// Delete the doomed chats themselves.
    fn purge_chats_of(&mut self, doomed: &Vec<u64>)
        ensures
            final(self).chats@ == old(self).chats@.filter(|c: Chat| !doomed@.contains(c.id)),
            final(self).users == old(self).users,
            final(self).participants == old(self).participants,
            final(self).conversations == old(self).conversations,
            final(self).messages == old(self).messages,
            final(self).receipts == old(self).receipts,
            final(self).contact_groups == old(self).contact_groups,
            final(self).contact_user_links == old(self).contact_user_links,
            final(self).contacts == old(self).contacts,
            final(self).agents == old(self).agents,
            final(self).next_id == old(self).next_id,
            final(self).fault_step == old(self).fault_step,
    {
        let ghost pred = |c: Chat| !doomed@.contains(c.id);
        let n = self.chats.len();
        let mut kept: Vec<Chat> = Vec::new();
        let mut i: usize = 0;
        while i < n
            invariant
                i <= n,
                n == self.chats@.len(),
                kept@ == self.chats@.take(i as int).filter(pred),
                pred == (|c: Chat| !doomed@.contains(c.id)),
            decreases n - i,
        {
            proof {
                let pref = self.chats@.take(i as int);
                let elem = self.chats@[i as int];
                assert(self.chats@.take(i as int + 1) =~= pref.push(elem));
            }
            if !vec_contains_u64(doomed, self.chats[i].id) {
                kept.push(self.chats[i].dup());
            }
            i += 1;
        }
        proof {
            assert(self.chats@.take(n as int) =~= self.chats@);
        }
        self.chats = kept;
    }

    /// Delete every message of the doomed chats' conversations.
    fn purge_messages_of(&mut self, doomed: &Vec<u64>)
        requires
            crate::keys::keys_unique(old(self).conversations@),
            forall|i: int|
                0 <= i < old(self).messages@.len() ==> has_key(
                    old(self).conversations@,
                    (#[trigger] old(self).messages@[i]).conversation_id,
                ),
        ensures
            final(self).messages@ == old(self).messages@.filter(
                |m: Message| !message_gone(old(self).conversations@, doomed@, m),
            ),
            final(self).users == old(self).users,
            final(self).chats == old(self).chats,
            final(self).participants == old(self).participants,
            final(self).conversations == old(self).conversations,
            final(self).receipts == old(self).receipts,
            final(self).contact_groups == old(self).contact_groups,
            final(self).contact_user_links == old(self).contact_user_links,
            final(self).contacts == old(self).contacts,
            final(self).agents == old(self).agents,
            final(self).next_id == old(self).next_id,
            final(self).fault_step == old(self).fault_step,
    {
        let ghost pred = |m: Message| !message_gone(old(self).conversations@, doomed@, m);
        let n = self.messages.len();
        let mut kept: Vec<Message> = Vec::new();
        let mut i: usize = 0;
        while i < n
            invariant
                i <= n,
                n == self.messages@.len(),
                self.conversations == old(self).conversations,
                self.messages == old(self).messages,
                kept@ == self.messages@.take(i as int).filter(pred),
                pred == (|m: Message| !message_gone(old(self).conversations@, doomed@, m)),
                crate::keys::keys_unique(self.conversations@),
                forall|k: int|
                    0 <= k < self.messages@.len() ==> has_key(
                        self.conversations@,
                        (#[trigger] self.messages@[k]).conversation_id,
                    ),
            decreases n - i,
        {
            let conv_id = self.messages[i].conversation_id;
            let ki = match find_key(&self.conversations, conv_id) {
                Some(k) => k,
                None => {
                    proof {
                        assert(has_key(self.conversations@, self.messages@[i as int].conversation_id));
                        assert(false);
                    }
                    return ;
                },
            };
            let gone = vec_contains_u64(doomed, self.conversations[ki].chat_id);
            proof {
                let elem = self.messages@[i as int];
                assert(gone == message_gone(old(self).conversations@, doomed@, elem)) by {
                    if gone {
                        let kw: int = ki as int;
                        assert(0 <= kw && kw < self.conversations@.len());
                        assert(self.conversations@[kw].id == elem.conversation_id);
                        assert(doomed@.contains(self.conversations@[kw].chat_id));
                    }
                    if message_gone(old(self).conversations@, doomed@, elem) {
                        let k2 = choose|k2: int|
                            0 <= k2 < old(self).conversations@.len() && (#[trigger] old(self).conversations@[k2]).id == elem.conversation_id && doomed@.contains(
                                old(self).conversations@[k2].chat_id,
                            );
                        assert(old(self).conversations@[k2].key_spec() == self.conversations@[
                        ki as int].key_spec());
                        assert(k2 == ki as int);
                    }
                }
                let pref = self.messages@.take(i as int);
                assert(self.messages@.take(i as int + 1) =~= pref.push(elem));
            }
            if !gone {
                kept.push(self.messages[i].dup());
            }
            i += 1;
        }
        proof {
            assert(self.messages@.take(n as int) =~= self.messages@);
        }
        self.messages = kept;
    }

    /// Delete every receipt of the doomed chats' messages.
    fn purge_receipts_of(&mut self, doomed: &Vec<u64>)
        requires
            crate::keys::keys_unique(old(self).conversations@),
            crate::keys::keys_unique(old(self).messages@),
            forall|i: int|
                0 <= i < old(self).messages@.len() ==> has_key(
                    old(self).conversations@,
                    (#[trigger] old(self).messages@[i]).conversation_id,
                ),
            forall|i: int|
                0 <= i < old(self).receipts@.len() ==> has_key(
                    old(self).messages@,
                    (#[trigger] old(self).receipts@[i]).message_id,
                ),
        ensures
            final(self).receipts@ == old(self).receipts@.filter(
                |r: MessageReceipt| !receipt_gone(
                    old(self).messages@,
                    old(self).conversations@,
                    doomed@,
                    r,
                ),
            ),
            final(self).users == old(self).users,
            final(self).chats == old(self).chats,
            final(self).participants == old(self).participants,
            final(self).conversations == old(self).conversations,
            final(self).messages == old(self).messages,
            final(self).contact_groups == old(self).contact_groups,
            final(self).contact_user_links == old(self).contact_user_links,
            final(self).contacts == old(self).contacts,
            final(self).agents == old(self).agents,
            final(self).next_id == old(self).next_id,
            final(self).fault_step == old(self).fault_step,
    {
        let ghost pred = |r: MessageReceipt| !receipt_gone(
            old(self).messages@,
            old(self).conversations@,
            doomed@,
            r,
        );
        let n = self.receipts.len();
        let mut kept: Vec<MessageReceipt> = Vec::new();
        let mut i: usize = 0;
        while i < n
            invariant
                i <= n,
                n == self.receipts@.len(),
                self.conversations == old(self).conversations,
                self.messages == old(self).messages,
                self.receipts == old(self).receipts,
                kept@ == self.receipts@.take(i as int).filter(pred),
                pred == (|r: MessageReceipt| !receipt_gone(
                    old(self).messages@,
                    old(self).conversations@,
                    doomed@,
                    r,
                )),
                crate::keys::keys_unique(self.conversations@),
                crate::keys::keys_unique(self.messages@),
                forall|k: int|
                    0 <= k < self.messages@.len() ==> has_key(
                        self.conversations@,
                        (#[trigger] self.messages@[k]).conversation_id,
                    ),
                forall|k: int|
                    0 <= k < self.receipts@.len() ==> has_key(
                        self.messages@,
                        (#[trigger] self.receipts@[k]).message_id,
                    ),
            decreases n - i,
        {
            let message_id = self.receipts[i].message_id;
            let mi = match find_key(&self.messages, message_id) {
                Some(k) => k,
                None => {
                    proof {
                        assert(has_key(self.messages@, self.receipts@[i as int].message_id));
                        assert(false);
                    }
                    return ;
                },
            };
            let conv_id = self.messages[mi].conversation_id;
            let ki = match find_key(&self.conversations, conv_id) {
                Some(k) => k,
                None => {
                    proof {
                        assert(has_key(self.conversations@, self.messages@[mi as int].conversation_id));
                        assert(false);
                    }
                    return ;
                },
            };
            let gone = vec_contains_u64(doomed, self.conversations[ki].chat_id);
            proof {
                let elem = self.receipts@[i as int];
                assert(gone == receipt_gone(
                    old(self).messages@,
                    old(self).conversations@,
                    doomed@,
                    elem,
                )) by {
                    if gone {
                        let mw: int = mi as int;
                        let kw: int = ki as int;
                        assert(message_gone(self.conversations@, doomed@, self.messages@[mw])) by {
                            assert(0 <= kw && kw < self.conversations@.len());
                            assert(self.conversations@[kw].id == self.messages@[
                            mw].conversation_id);
                            assert(doomed@.contains(self.conversations@[kw].chat_id));
                        }
                        assert(0 <= mw && mw < self.messages@.len());
                        assert(self.messages@[mw].id == elem.message_id);
                    }
                    if receipt_gone(old(self).messages@, old(self).conversations@, doomed@, elem) {
                        let m2 = choose|m2: int|
                            0 <= m2 < old(self).messages@.len() && (#[trigger] old(self).messages@[m2]).id == elem.message_id && message_gone(
                                old(self).conversations@,
                                doomed@,
                                old(self).messages@[m2],
                            );
                        assert(old(self).messages@[m2].key_spec() == self.messages@[
                        mi as int].key_spec());
                        assert(m2 == mi as int);
                        let k2 = choose|k2: int|
                            0 <= k2 < old(self).conversations@.len() && (#[trigger] old(self).conversations@[k2]).id == old(self).messages@[m2].conversation_id
                                && doomed@.contains(old(self).conversations@[k2].chat_id);
                        assert(old(self).conversations@[k2].key_spec() == self.conversations@[
                        ki as int].key_spec());
                        assert(k2 == ki as int);
                    }
                }
                let pref = self.receipts@.take(i as int);
                assert(self.receipts@.take(i as int + 1) =~= pref.push(elem));
            }
            if !gone {
                kept.push(self.receipts[i].dup());
            }
            i += 1;
        }
        proof {
            assert(self.receipts@.take(n as int) =~= self.receipts@);
        }
        self.receipts = kept;
    }

    /// Delete every agent linked to `user_id`.
    fn purge_agents_of_user(&mut self, user_id: u64)
        ensures
            final(self).agents@ == old(self).agents@.filter(
                |a: Agent| a.user_id != Some(user_id),
            ),
            final(self).users == old(self).users,
            final(self).chats == old(self).chats,
            final(self).participants == old(self).participants,
            final(self).conversations == old(self).conversations,
            final(self).messages == old(self).messages,
            final(self).receipts == old(self).receipts,
            final(self).contact_groups == old(self).contact_groups,
            final(self).contact_user_links == old(self).contact_user_links,
            final(self).contacts == old(self).contacts,
            final(self).next_id == old(self).next_id,
            final(self).fault_step == old(self).fault_step,
    {
        let ghost pred = |a: Agent| a.user_id != Some(user_id);
        let n = self.agents.len();
        let mut kept: Vec<Agent> = Vec::new();
        let mut i: usize = 0;
        while i < n
            invariant
                i <= n,
                n == self.agents@.len(),
                kept@ == self.agents@.take(i as int).filter(pred),
                pred == (|a: Agent| a.user_id != Some(user_id)),
            decreases n - i,
        {
            proof {
                let pref = self.agents@.take(i as int);
                let elem = self.agents@[i as int];
                assert(self.agents@.take(i as int + 1) =~= pref.push(elem));
            }
            let keep = match self.agents[i].user_id {
                Some(u) => u != user_id,
                None => true,
            };
            if keep {
                kept.push(self.agents[i].dup());
            }
            i += 1;
        }
        proof {
            assert(self.agents@.take(n as int) =~= self.agents@);
        }
        self.agents = kept;
    }


    /// Rename or regroup a contact, leaving owner and user link alone.
    /// Fails with `NotFound` when the contact or the new group is absent.
    pub fn update_contact(
        &mut self,
        id: u64,
        name: String,
        description: Option<String>,
        group_id: u64,
        now: i64,
    ) -> (r: Result<Contact, StoreError>)
        requires
            old(self).wf(),
        ensures
            final(self).wf(),
            ({
                let valid = has_key(old(self).contacts@, id) && has_key(
                    old(self).contact_groups@,
                    group_id,
                );
                match r {
                    Ok(c) => {
                        &&& valid
                        &&& !fault_in(old(self).fault_step, 1)
                        &&& c == (Contact {
                            id: id,
                            name: name,
                            description: description,
                            group_id: group_id,
                            owner_id: row_of(old(self).contacts@, id).owner_id,
                            user_link_id: row_of(old(self).contacts@, id).user_link_id,
                            created_at: row_of(old(self).contacts@, id).created_at,
                            updated_at: now,
                        })
                        &&& final(self).contacts@ == old(self).contacts@.update(
                            key_index(old(self).contacts@, id),
                            c,
                        )
                        &&& final(self).next_id == old(self).next_id
                        &&& final(self).users == old(self).users
                        &&& final(self).chats == old(self).chats
                        &&& final(self).participants == old(self).participants
                        &&& final(self).conversations == old(self).conversations
                        &&& final(self).messages == old(self).messages
                        &&& final(self).receipts == old(self).receipts
                        &&& final(self).contact_groups == old(self).contact_groups
                        &&& final(self).contact_user_links == old(self).contact_user_links
                        &&& final(self).agents == old(self).agents
                    },
                    Err(e) => {
                        &&& unchanged_tables(*old(self), *final(self))
                        &&& (e == StoreError::NotFound || e == StoreError::DatabaseError)
                        &&& (e == StoreError::NotFound <==> !valid)
                        &&& (e == StoreError::DatabaseError <==> valid && fault_in(
                            old(self).fault_step,
                            1,
                        ))
                    },
                }
            }),
    {
        let i = match find_key(&self.contacts, id) {
            Some(i) => i,
            None => {
                proof {
                    lemma_wf_unchanged(*old(self), *self);
                }
                return Err(StoreError::NotFound);
            },
        };
        if find_key(&self.contact_groups, group_id).is_none() {
            proof {
                lemma_wf_unchanged(*old(self), *self);
            }
            return Err(StoreError::NotFound);
        }
        if self.consume_fault(1) {
            proof {
                lemma_wf_unchanged(*old(self), *self);
            }
            return Err(StoreError::DatabaseError);
        }
        proof {
            lemma_key_index(self.contacts@, i as int);
        }
        let row = &self.contacts[i];
        let updated = Contact {
            id,
            name,
            description,
            group_id,
            owner_id: row.owner_id,
            user_link_id: row.user_link_id,
            created_at: row.created_at,
            updated_at: now,
        };
        let out = updated.dup();
        *vstd::std_specs::vec::vec_index_mut(&mut self.contacts, i) = updated;
        proof {
            assert(self.participants_ok());
            assert(self.contacts_ok()) by {
                assert forall|k: int|
                    0 <= k < self.contacts@.len() implies has_key(
                    self.contact_groups@,
                    (#[trigger] self.contacts@[k]).group_id,
                ) && has_key(self.users@, self.contacts@[k].owner_id) && has_key(
                    self.contact_user_links@,
                    self.contacts@[k].user_link_id,
                ) by {
                    if k != i as int {
                        assert(self.contacts@[k] == old(self).contacts@[k]);
                    }
                    assert(has_key(old(self).contact_groups@, old(self).contacts@[k].group_id));
                    assert(has_key(old(self).users@, old(self).contacts@[k].owner_id));
                    assert(has_key(
                        old(self).contact_user_links@,
                        old(self).contacts@[k].user_link_id,
                    ));
                }
            }
            assert(self.agents_ok());
            lemma_receipts_ok_same(*old(self), *self);
            lemma_wf_parts(*self);
        }
        Ok(out)
    }

    /// Rename a contact group.  Fails with `NotFound` when it is absent.
    pub fn update_contact_group(
        &mut self,
        id: u64,
        name: String,
        description: Option<String>,
        now: i64,
    ) -> (r: Result<ContactGroup, StoreError>)
        requires
            old(self).wf(),
        ensures
            final(self).wf(),
            match r {
                Ok(g) => {
                    &&& has_key(old(self).contact_groups@, id)
                    &&& !fault_in(old(self).fault_step, 1)
                    &&& g == (ContactGroup {
                        id: id,
                        name: name,
                        description: description,
                        created_at: row_of(old(self).contact_groups@, id).created_at,
                        updated_at: now,
                    })
                    &&& final(self).contact_groups@ == old(self).contact_groups@.update(
                        key_index(old(self).contact_groups@, id),
                        g,
                    )
                    &&& final(self).next_id == old(self).next_id
                    &&& final(self).users == old(self).users
                    &&& final(self).chats == old(self).chats
                    &&& final(self).participants == old(self).participants
                    &&& final(self).conversations == old(self).conversations
                    &&& final(self).messages == old(self).messages
                    &&& final(self).receipts == old(self).receipts
                    &&& final(self).contact_user_links == old(self).contact_user_links
                    &&& final(self).contacts == old(self).contacts
                    &&& final(self).agents == old(self).agents
                },
                Err(e) => {
                    &&& unchanged_tables(*old(self), *final(self))
                    &&& (e == StoreError::NotFound || e == StoreError::DatabaseError)
                    &&& (e == StoreError::NotFound <==> !has_key(old(self).contact_groups@, id))
                    &&& (e == StoreError::DatabaseError <==> has_key(old(self).contact_groups@, id)
                        && fault_in(old(self).fault_step, 1))
                },
            },
    {
        let i = match find_key(&self.contact_groups, id) {
            Some(i) => i,
            None => {
                proof {
                    lemma_wf_unchanged(*old(self), *self);
                }
                return Err(StoreError::NotFound);
            },
        };
        if self.consume_fault(1) {
            proof {
                lemma_wf_unchanged(*old(self), *self);
            }
            return Err(StoreError::DatabaseError);
        }
        proof {
            lemma_key_index(self.contact_groups@, i as int);
        }
        let row = &self.contact_groups[i];
        let updated = ContactGroup {
            id,
            name,
            description,
            created_at: row.created_at,
            updated_at: now,
        };
        let out = updated.dup();
        *vstd::std_specs::vec::vec_index_mut(&mut self.contact_groups, i) = updated;
        proof {
            assert(self.participants_ok());
            assert(self.contacts_ok());
            assert(self.agents_ok());
            lemma_receipts_ok_same(*old(self), *self);
            lemma_wf_parts(*self);
        }
        Ok(out)
    }

    /// Delete a contact group that no contact uses any more.
    ///
    /// Fails with `NotFound` when it is absent and with `DatabaseError`
    /// while some contact still references it, as the foreign-key
    /// constraint of a relational store would.
    pub fn delete_contact_group(&mut self, id: u64) -> (r: Result<(), StoreError>)
        requires
            old(self).wf(),
        ensures
            final(self).wf(),
            match r {
                Ok(()) => {
                    &&& has_key(old(self).contact_groups@, id)
                    &&& !old(self).some_contact_in_group(id)
                    &&& !fault_in(old(self).fault_step, 1)
                    &&& final(self).contact_groups@ == old(self).contact_groups@.remove(
                        key_index(old(self).contact_groups@, id),
                    )
                    &&& !has_key(final(self).contact_groups@, id)
                    &&& final(self).next_id == old(self).next_id
                    &&& final(self).users == old(self).users
                    &&& final(self).chats == old(self).chats
                    &&& final(self).participants == old(self).participants
                    &&& final(self).conversations == old(self).conversations
                    &&& final(self).messages == old(self).messages
                    &&& final(self).receipts == old(self).receipts
                    &&& final(self).contact_user_links == old(self).contact_user_links
                    &&& final(self).contacts == old(self).contacts
                    &&& final(self).agents == old(self).agents
                },
                Err(e) => {
                    &&& unchanged_tables(*old(self), *final(self))
                    &&& (e == StoreError::NotFound || e == StoreError::DatabaseError)
                    &&& (e == StoreError::NotFound <==> !has_key(old(self).contact_groups@, id))
                    &&& (e == StoreError::DatabaseError <==> has_key(old(self).contact_groups@, id)
                        && (old(self).some_contact_in_group(id) || fault_in(
                        old(self).fault_step,
                        1,
                    )))
                },
            },
    {
        let i = match find_key(&self.contact_groups, id) {
            Some(i) => i,
            None => {
                proof {
                    lemma_wf_unchanged(*old(self), *self);
                }
                return Err(StoreError::NotFound);
            },
        };
        if self.group_has_contacts(id) {
            proof {
                lemma_wf_unchanged(*old(self), *self);
            }
            return Err(StoreError::DatabaseError);
        }
        if self.consume_fault(1) {
            proof {
                lemma_wf_unchanged(*old(self), *self);
            }
            return Err(StoreError::DatabaseError);
        }
        proof {
            lemma_key_index(self.contact_groups@, i as int);
        }
        self.contact_groups.remove(i);
        proof {
            assert(self.ids_ok());
            assert(self.participants_ok());
            assert(self.contacts_ok());
            assert(self.agents_ok());
            lemma_receipts_ok_same(*old(self), *self);
            lemma_wf_parts(*self);
        }
        Ok(())
    }

    /// Delete a user link that no contact uses any more.
    ///
    /// Fails with `NotFound` when it is absent and with `DatabaseError`
    /// while some contact still references it.
    pub fn delete_contact_user_link(&mut self, id: u64) -> (r: Result<(), StoreError>)
        requires
            old(self).wf(),
        ensures
            final(self).wf(),
            match r {
                Ok(()) => {
                    &&& has_key(old(self).contact_user_links@, id)
                    &&& !old(self).some_contact_with_link(id)
                    &&& !fault_in(old(self).fault_step, 1)
                    &&& final(self).contact_user_links@ == old(self).contact_user_links@.remove(
                        key_index(old(self).contact_user_links@, id),
                    )
                    &&& !has_key(final(self).contact_user_links@, id)
                    &&& final(self).next_id == old(self).next_id
                    &&& final(self).users == old(self).users
                    &&& final(self).chats == old(self).chats
                    &&& final(self).participants == old(self).participants
                    &&& final(self).conversations == old(self).conversations
                    &&& final(self).messages == old(self).messages
                    &&& final(self).receipts == old(self).receipts
                    &&& final(self).contact_groups == old(self).contact_groups
                    &&& final(self).contacts == old(self).contacts
                    &&& final(self).agents == old(self).agents
                },
                Err(e) => {
                    &&& unchanged_tables(*old(self), *final(self))
                    &&& (e == StoreError::NotFound || e == StoreError::DatabaseError)
                    &&& (e == StoreError::NotFound <==> !has_key(
                        old(self).contact_user_links@,
                        id,
                    ))
                    &&& (e == StoreError::DatabaseError <==> has_key(
                        old(self).contact_user_links@,
                        id,
                    ) && (old(self).some_contact_with_link(id) || fault_in(
                        old(self).fault_step,
                        1,
                    )))
                },
            },
    {
        let i = match find_key(&self.contact_user_links, id) {
            Some(i) => i,
            None => {
                proof {
                    lemma_wf_unchanged(*old(self), *self);
                }
                return Err(StoreError::NotFound);
            },
        };
        if self.link_has_contacts(id) {
            proof {
                lemma_wf_unchanged(*old(self), *self);
            }
            return Err(StoreError::DatabaseError);
        }
        if self.consume_fault(1) {
            proof {
                lemma_wf_unchanged(*old(self), *self);
            }
            return Err(StoreError::DatabaseError);
        }
        proof {
            lemma_key_index(self.contact_user_links@, i as int);
        }
        self.contact_user_links.remove(i);
        proof {
            assert(self.ids_ok());
            assert(self.participants_ok());
            assert(self.contacts_ok());
            assert(self.agents_ok());
            lemma_receipts_ok_same(*old(self), *self);
            lemma_wf_parts(*self);
        }
        Ok(())
    }

    /// Create an agent, optionally linked to an existing user.  Fails
    /// with `NotFound` when the linked user is absent.
    pub fn create_agent(&mut self, params: AgentParams, user_id: Option<u64>, now: i64) -> (r:
        Result<Agent, StoreError>)
        requires
            old(self).wf(),
            old(self).next_id < ID_LIMIT,
        ensures
            final(self).wf(),
            ({
                let valid = match user_id {
                    Some(uid) => has_key(old(self).users@, uid),
                    None => true,
                };
                match r {
                    Ok(a) => {
                        &&& valid
                        &&& !fault_in(old(self).fault_step, 1)
                        &&& a == (Agent {
                            id: old(self).next_id,
                            name: params.name,
                            model_name: params.model_name,
                            system_prompt: params.system_prompt,
                            temperature_milli: params.temperature_milli,
                            max_tokens: params.max_tokens,
                            top_p_milli: params.top_p_milli,
                            avatar_url: params.avatar_url,
                            description: params.description,
                            is_streaming: params.is_streaming,
                            user_id: user_id,
                            created_at: now,
                            updated_at: now,
                        })
                        &&& final(self).agents@ == old(self).agents@.push(a)
                        &&& final(self).next_id == old(self).next_id + 1
                        &&& final(self).users == old(self).users
                        &&& final(self).chats == old(self).chats
                        &&& final(self).participants == old(self).participants
                        &&& final(self).conversations == old(self).conversations
                        &&& final(self).messages == old(self).messages
                        &&& final(self).receipts == old(self).receipts
                        &&& final(self).contact_groups == old(self).contact_groups
                        &&& final(self).contact_user_links == old(self).contact_user_links
                        &&& final(self).contacts == old(self).contacts
                    },
                    Err(e) => {
                        &&& unchanged_tables(*old(self), *final(self))
                        &&& (e == StoreError::NotFound || e == StoreError::DatabaseError)
                        &&& (e == StoreError::NotFound <==> !valid)
                        &&& (e == StoreError::DatabaseError <==> valid && fault_in(
                            old(self).fault_step,
                            1,
                        ))
                    },
                }
            }),
    {
        match user_id {
            Some(uid) => {
                if find_key(&self.users, uid).is_none() {
                    proof {
                        lemma_wf_unchanged(*old(self), *self);
                    }
                    return Err(StoreError::NotFound);
                }
            },
            None => {},
        }
        if self.consume_fault(1) {
            proof {
                lemma_wf_unchanged(*old(self), *self);
            }
            return Err(StoreError::DatabaseError);
        }
        let id = self.alloc_id();
        let agent = Agent {
            id,
            name: params.name,
            model_name: params.model_name,
            system_prompt: params.system_prompt,
            temperature_milli: params.temperature_milli,
            max_tokens: params.max_tokens,
            top_p_milli: params.top_p_milli,
            avatar_url: params.avatar_url,
            description: params.description,
            is_streaming: params.is_streaming,
            user_id: crate::rows::dup_opt_u64(&user_id),
            created_at: now,
            updated_at: now,
        };
        let out = agent.dup();
        self.agents.push(agent);
        proof {
            assert(self.participants_ok());
            assert(self.contacts_ok());
            assert(self.agents_ok()) by {
                assert forall|k: int|
                    0 <= k < self.agents@.len() implies match (
                #[trigger] self.agents@[k]).user_id {
                    Some(ux) => has_key(self.users@, ux),
                    None => true,
                } by {
                    if k < old(self).agents@.len() {
                        assert(self.agents@[k] == old(self).agents@[k]);
                        match old(self).agents@[k].user_id {
                            Some(ux) => {
                                assert(has_key(old(self).users@, ux));
                            },
                            None => {},
                        }
                    }
                }
            }
            lemma_receipts_ok_same(*old(self), *self);
            lemma_wf_parts(*self);
        }
        Ok(out)
    }


    /// Overwrite an agent's configuration and user link.  Fails with
    /// `NotFound` when the agent, or the user a `Some` link names, is
    /// absent.
    pub fn update_agent(
        &mut self,
        id: u64,
        params: AgentParams,
        user_id: Option<u64>,
        now: i64,
    ) -> (r: Result<Agent, StoreError>)
        requires
            old(self).wf(),
        ensures
            final(self).wf(),
            ({
                let valid = has_key(old(self).agents@, id) && (match user_id {
                    Some(uid) => has_key(old(self).users@, uid),
                    None => true,
                });
                match r {
                    Ok(a) => {
                        &&& valid
                        &&& !fault_in(old(self).fault_step, 1)
                        &&& a == (Agent {
                            id: id,
                            name: params.name,
                            model_name: params.model_name,
                            system_prompt: params.system_prompt,
                            temperature_milli: params.temperature_milli,
                            max_tokens: params.max_tokens,
                            top_p_milli: params.top_p_milli,
                            avatar_url: params.avatar_url,
                            description: params.description,
                            is_streaming: params.is_streaming,
                            user_id: user_id,
                            created_at: row_of(old(self).agents@, id).created_at,
                            updated_at: now,
                        })
                        &&& final(self).agents@ == old(self).agents@.update(
                            key_index(old(self).agents@, id),
                            a,
                        )
                        &&& final(self).next_id == old(self).next_id
                        &&& final(self).users == old(self).users
                        &&& final(self).chats == old(self).chats
                        &&& final(self).participants == old(self).participants
                        &&& final(self).conversations == old(self).conversations
                        &&& final(self).messages == old(self).messages
                        &&& final(self).receipts == old(self).receipts
                        &&& final(self).contact_groups == old(self).contact_groups
                        &&& final(self).contact_user_links == old(self).contact_user_links
                        &&& final(self).contacts == old(self).contacts
                    },
                    Err(e) => {
                        &&& unchanged_tables(*old(self), *final(self))
                        &&& (e == StoreError::NotFound || e == StoreError::DatabaseError)
                        &&& (e == StoreError::NotFound <==> !valid)
                        &&& (e == StoreError::DatabaseError <==> valid && fault_in(
                            old(self).fault_step,
                            1,
                        ))
                    },
                }
            }),
    {
        let i = match find_key(&self.agents, id) {
            Some(i) => i,
            None => {
                proof {
                    lemma_wf_unchanged(*old(self), *self);
                }
                return Err(StoreError::NotFound);
            },
        };
        match user_id {
            Some(uid) => {
                if find_key(&self.users, uid).is_none() {
                    proof {
                        lemma_wf_unchanged(*old(self), *self);
                    }
                    return Err(StoreError::NotFound);
                }
            },
            None => {},
        }
        if self.consume_fault(1) {
            proof {
                lemma_wf_unchanged(*old(self), *self);
            }
            return Err(StoreError::DatabaseError);
        }
        proof {
            lemma_key_index(self.agents@, i as int);
        }
        let created_at = self.agents[i].created_at;
        let updated = Agent {
            id,
            name: params.name,
            model_name: params.model_name,
            system_prompt: params.system_prompt,
            temperature_milli: params.temperature_milli,
            max_tokens: params.max_tokens,
            top_p_milli: params.top_p_milli,
            avatar_url: params.avatar_url,
            description: params.description,
            is_streaming: params.is_streaming,
            user_id: crate::rows::dup_opt_u64(&user_id),
            created_at,
            updated_at: now,
        };
        let out = updated.dup();
        *vstd::std_specs::vec::vec_index_mut(&mut self.agents, i) = updated;
        proof {
            assert(self.participants_ok());
            assert(self.contacts_ok());
            assert(self.agents_ok()) by {
                assert forall|k: int|
                    0 <= k < self.agents@.len() implies match (
                #[trigger] self.agents@[k]).user_id {
                    Some(ux) => has_key(self.users@, ux),
                    None => true,
                } by {
                    if k != i as int {
                        assert(self.agents@[k] == old(self).agents@[k]);
                        match old(self).agents@[k].user_id {
                            Some(ux) => {
                                assert(has_key(old(self).users@, ux));
                            },
                            None => {},
                        }
                    }
                }
            }
            lemma_receipts_ok_same(*old(self), *self);
            lemma_wf_parts(*self);
        }
        Ok(out)
    }

    /// Delete an agent.  Fails with `NotFound` when it is absent.
    pub fn delete_agent(&mut self, id: u64) -> (r: Result<(), StoreError>)
        requires
            old(self).wf(),
        ensures
            final(self).wf(),
            match r {
                Ok(()) => {
                    &&& has_key(old(self).agents@, id)
                    &&& !fault_in(old(self).fault_step, 1)
                    &&& final(self).agents@ == old(self).agents@.remove(
                        key_index(old(self).agents@, id),
                    )
                    &&& !has_key(final(self).agents@, id)
                    &&& final(self).next_id == old(self).next_id
                    &&& final(self).users == old(self).users
                    &&& final(self).chats == old(self).chats
                    &&& final(self).participants == old(self).participants
                    &&& final(self).conversations == old(self).conversations
                    &&& final(self).messages == old(self).messages
                    &&& final(self).receipts == old(self).receipts
                    &&& final(self).contact_groups == old(self).contact_groups
                    &&& final(self).contact_user_links == old(self).contact_user_links
                    &&& final(self).contacts == old(self).contacts
                },
                Err(e) => {
                    &&& unchanged_tables(*old(self), *final(self))
                    &&& (e == StoreError::NotFound || e == StoreError::DatabaseError)
                    &&& (e == StoreError::NotFound <==> !has_key(old(self).agents@, id))
                    &&& (e == StoreError::DatabaseError <==> has_key(old(self).agents@, id)
                        && fault_in(old(self).fault_step, 1))
                },
            },
    {
        let i = match find_key(&self.agents, id) {
            Some(i) => i,
            None => {
                proof {
                    lemma_wf_unchanged(*old(self), *self);
                }
                return Err(StoreError::NotFound);
            },
        };
        if self.consume_fault(1) {
            proof {
                lemma_wf_unchanged(*old(self), *self);
            }
            return Err(StoreError::DatabaseError);
        }
        proof {
            lemma_key_index(self.agents@, i as int);
        }
        self.agents.remove(i);
        proof {
            assert(self.ids_ok());
            assert(self.participants_ok());
            assert(self.contacts_ok());
            assert(self.agents_ok()) by {
                assert forall|k: int|
                    0 <= k < self.agents@.len() implies match (
                #[trigger] self.agents@[k]).user_id {
                    Some(ux) => has_key(self.users@, ux),
                    None => true,
                } by {
                    let k2: int = if k < i as int {
                        k
                    } else {
                        k + 1
                    };
                    assert(self.agents@[k] == old(self).agents@[k2]);
                    match old(self).agents@[k2].user_id {
                        Some(ux) => {
                            assert(has_key(old(self).users@, ux));
                        },
                        None => {},
                    }
                }
            }
            lemma_receipts_ok_same(*old(self), *self);
            lemma_wf_parts(*self);
        }
        Ok(())
    }

    /// Delete a contact together with its dependent graph, reference
    /// counting inside the same transaction.
    ///
    /// The cascade: every individual chat shared by `owner_id` and the
    /// contact's linked user loses its receipts, messages, conversation,
    /// membership rows, and finally the chat row itself; then the contact
    /// row goes; the group goes if it holds no other contact; the user
    /// link goes if no other contact uses it; and if the linked user then
    /// participates in no chat and owns no contact, the user and its
    /// agents go too.  Fails with `NotFound` when the contact is absent;
    /// on every failure the store is unchanged.
    pub fn delete_contact_with_related_data(&mut self, contact_id: u64, owner_id: u64) -> (r:
        Result<(), StoreError>)
        requires
            old(self).wf(),
        ensures
            final(self).wf(),
            ({
                let pre = *old(self);
                let ct = row_of(pre.contacts@, contact_id);
                let lnk = ct.user_link_id;
                let grp = ct.group_id;
                let u = row_of(pre.contact_user_links@, lnk).user_id;
                match r {
                    Ok(()) => {
                        &&& has_key(pre.contacts@, contact_id)
                        &&& !fault_in(pre.fault_step, 1)
                        &&& final(self).contacts@ == pre.contacts@.remove(
                            key_index(pre.contacts@, contact_id),
                        )
                        &&& !has_key(final(self).contacts@, contact_id)
                        &&& final(self).chats@ == pre.chats@.filter(
                            |c: Chat| !chat_torn(pre.chats@, pre.participants@, c.id, owner_id, u),
                        )
                        &&& final(self).participants@ == pre.participants@.filter(
                            |p: ChatParticipant| !chat_torn(
                                pre.chats@,
                                pre.participants@,
                                p.chat_id,
                                owner_id,
                                u,
                            ),
                        )
                        &&& final(self).conversations@ == pre.conversations@.filter(
                            |v: Conversation| !chat_torn(
                                pre.chats@,
                                pre.participants@,
                                v.chat_id,
                                owner_id,
                                u,
                            ),
                        )
                        &&& final(self).messages@ == pre.messages@.filter(
                            |m: Message| !conv_torn(
                                pre.chats@,
                                pre.participants@,
                                pre.conversations@,
                                m.conversation_id,
                                owner_id,
                                u,
                            ),
                        )
                        &&& final(self).receipts@ == pre.receipts@.filter(
                            |rc: MessageReceipt| !msg_torn(
                                pre.chats@,
                                pre.participants@,
                                pre.conversations@,
                                pre.messages@,
                                rc.message_id,
                                owner_id,
                                u,
                            ),
                        )
                        &&& (final(self).some_contact_in_group(grp) ==> final(self).contact_groups@
                            == pre.contact_groups@)
                        &&& (!final(self).some_contact_in_group(grp) ==> final(self).contact_groups@ == pre.contact_groups@.remove(
                            key_index(pre.contact_groups@, grp),
                        ) && !has_key(final(self).contact_groups@, grp))
                        &&& (final(self).some_contact_with_link(lnk) ==> final(self).contact_user_links@ == pre.contact_user_links@ && final(self).users@
                            == pre.users@ && final(self).agents@ == pre.agents@)
                        &&& (!final(self).some_contact_with_link(lnk) ==> final(self).contact_user_links@ == pre.contact_user_links@.remove(
                            key_index(pre.contact_user_links@, lnk),
                        ) && !has_key(final(self).contact_user_links@, lnk))
                        &&& ((!final(self).some_contact_with_link(lnk) && !final(self).some_participant_of_user(u) && !final(self).some_contact_owned_by(u))
                            ==> (!has_key(final(self).users@, u) && !final(self).some_agent_of_user(
                            u,
                        )))
                        &&& ((!final(self).some_contact_with_link(lnk) && (final(self).some_participant_of_user(u) || final(self).some_contact_owned_by(u)))
                            ==> (final(self).users@ == pre.users@ && final(self).agents@
                            == pre.agents@))
                        &&& final(self).next_id == pre.next_id
                    },
                    Err(e) => {
                        &&& unchanged_tables(pre, *final(self))
                        &&& (e == StoreError::NotFound || e == StoreError::DatabaseError)
                        &&& (e == StoreError::NotFound <==> !has_key(pre.contacts@, contact_id))
                        &&& (e == StoreError::DatabaseError <==> has_key(pre.contacts@, contact_id)
                            && fault_in(pre.fault_step, 1))
                    },
                }
            }),
    {
        let ci = match find_key(&self.contacts, contact_id) {
            Some(i) => i,
            None => {
                proof {
                    lemma_wf_unchanged(*old(self), *self);
                }
                return Err(StoreError::NotFound);
            },
        };
        if self.consume_fault(1) {
            proof {
                lemma_wf_unchanged(*old(self), *self);
            }
            return Err(StoreError::DatabaseError);
        }
        proof {
            lemma_key_index(self.contacts@, ci as int);
        }
        let group_id = self.contacts[ci].group_id;
        let link_id = self.contacts[ci].user_link_id;
        let li = match find_key(&self.contact_user_links, link_id) {
            Some(i) => i,
            None => {
                proof {
                    assert(has_key(
                        self.contact_user_links@,
                        self.contacts@[ci as int].user_link_id,
                    ));
                    assert(false);
                }
                return Err(StoreError::NotFound);
            },
        };
        let linked_user = self.contact_user_links[li].user_id;
        proof {
            lemma_key_index(self.contact_user_links@, li as int);
        }
        let doomed = self.collect_doomed_chats(owner_id, linked_user);
        proof {
            assert forall|i: int| 0 <= i < self.receipts@.len() implies has_key(
                self.messages@,
                (#[trigger] self.receipts@[i]).message_id,
            ) by {
                let k = choose|k: int|
                    0 <= k < self.messages@.len() && (#[trigger] self.messages@[k]).id
                        == self.receipts@[i].message_id && self.messages@[k].sender_id
                        != self.receipts@[i].receiver_id;
                assert(self.messages@[k].key_spec() == self.receipts@[i].message_id);
            }
        }
        self.purge_receipts_of(&doomed);
        self.purge_messages_of(&doomed);
        self.purge_conversations_of(&doomed);
        self.purge_participants_of(&doomed);
        self.purge_chats_of(&doomed);
        self.contacts.remove(ci);
        let group_stays = self.group_has_contacts(group_id);
        if !group_stays {
            match find_key(&self.contact_groups, group_id) {
                Some(gi) => {
                    proof {
                        lemma_key_index(self.contact_groups@, gi as int);
                    }
                    self.contact_groups.remove(gi);
                },
                None => {
                    proof {
                        assert(has_key(
                            old(self).contact_groups@,
                            old(self).contacts@[ci as int].group_id,
                        ));
                        assert(false);
                    }
                },
            }
        }
        let link_stays = self.link_has_contacts(link_id);
        if !link_stays {
            match find_key(&self.contact_user_links, link_id) {
                Some(li2) => {
                    proof {
                        lemma_key_index(self.contact_user_links@, li2 as int);
                    }
                    self.contact_user_links.remove(li2);
                },
                None => {
                    proof {
                        assert(has_key(
                            old(self).contact_user_links@,
                            old(self).contacts@[ci as int].user_link_id,
                        ));
                        assert(false);
                    }
                },
            }
            if !self.participates_anywhere(linked_user) && !self.owns_any_contact(linked_user) {
                self.purge_agents_of_user(linked_user);
                match find_key(&self.users, linked_user) {
                    Some(ui) => {
                        proof {
                            lemma_key_index(self.users@, ui as int);
                        }
                        self.users.remove(ui);
                    },
                    None => {},
                }
            }
        }
        proof {
            let pre = *old(self);
            let u = linked_user;
            let keep_chat = |c: Chat| !chat_torn(pre.chats@, pre.participants@, c.id, owner_id, u);
            let keep_part = |p: ChatParticipant| !chat_torn(
                pre.chats@,
                pre.participants@,
                p.chat_id,
                owner_id,
                u,
            );
            let keep_conv = |v: Conversation| !chat_torn(
                pre.chats@,
                pre.participants@,
                v.chat_id,
                owner_id,
                u,
            );
            let keep_msg = |m: Message| !conv_torn(
                pre.chats@,
                pre.participants@,
                pre.conversations@,
                m.conversation_id,
                owner_id,
                u,
            );
            let keep_rcpt = |rc: MessageReceipt| !msg_torn(
                pre.chats@,
                pre.participants@,
                pre.conversations@,
                pre.messages@,
                rc.message_id,
                owner_id,
                u,
            );
            // the purge predicates agree with the contract's
            assert(self.chats@ == pre.chats@.filter(keep_chat)) by {
                lemma_filter_congruent(
                    pre.chats@,
                    |c: Chat| !doomed@.contains(c.id),
                    keep_chat,
                );
            }
            assert(self.participants@ == pre.participants@.filter(keep_part)) by {
                lemma_filter_congruent(
                    pre.participants@,
                    |p: ChatParticipant| !doomed@.contains(p.chat_id),
                    keep_part,
                );
            }
            assert(self.conversations@ == pre.conversations@.filter(keep_conv)) by {
                lemma_filter_congruent(
                    pre.conversations@,
                    |v: Conversation| !doomed@.contains(v.chat_id),
                    keep_conv,
                );
            }
            assert(self.messages@ == pre.messages@.filter(keep_msg)) by {
                assert forall|i: int| 0 <= i < pre.messages@.len() implies ((!message_gone(
                    pre.conversations@,
                    doomed@,
                    #[trigger] pre.messages@[i],
                )) == keep_msg(pre.messages@[i])) by {
                    let m = pre.messages@[i];
                    if message_gone(pre.conversations@, doomed@, m) {
                        let k = choose|k: int|
                            0 <= k < pre.conversations@.len() && (
                            #[trigger] pre.conversations@[k]).id == m.conversation_id
                                && doomed@.contains(pre.conversations@[k].chat_id);
                        assert(chat_torn(
                            pre.chats@,
                            pre.participants@,
                            pre.conversations@[k].chat_id,
                            owner_id,
                            u,
                        ));
                        assert(conv_torn(
                            pre.chats@,
                            pre.participants@,
                            pre.conversations@,
                            m.conversation_id,
                            owner_id,
                            u,
                        ));
                    }
                    if conv_torn(
                        pre.chats@,
                        pre.participants@,
                        pre.conversations@,
                        m.conversation_id,
                        owner_id,
                        u,
                    ) {
                        let k = choose|k: int|
                            0 <= k < pre.conversations@.len() && (
                            #[trigger] pre.conversations@[k]).id == m.conversation_id && chat_torn(
                                pre.chats@,
                                pre.participants@,
                                pre.conversations@[k].chat_id,
                                owner_id,
                                u,
                            );
                        assert(doomed@.contains(pre.conversations@[k].chat_id));
                        assert(message_gone(pre.conversations@, doomed@, m));
                    }
                }
                lemma_filter_congruent(
                    pre.messages@,
                    |m: Message| !message_gone(pre.conversations@, doomed@, m),
                    keep_msg,
                );
            }
            assert(self.receipts@ == pre.receipts@.filter(keep_rcpt)) by {
                assert forall|i: int| 0 <= i < pre.receipts@.len() implies ((!receipt_gone(
                    pre.messages@,
                    pre.conversations@,
                    doomed@,
                    #[trigger] pre.receipts@[i],
                )) == keep_rcpt(pre.receipts@[i])) by {
                    let rc = pre.receipts@[i];
                    if receipt_gone(pre.messages@, pre.conversations@, doomed@, rc) {
                        let k = choose|k: int|
                            0 <= k < pre.messages@.len() && (#[trigger] pre.messages@[k]).id
                                == rc.message_id && message_gone(
                                pre.conversations@,
                                doomed@,
                                pre.messages@[k],
                            );
                        let k2 = choose|k2: int|
                            0 <= k2 < pre.conversations@.len() && (
                            #[trigger] pre.conversations@[k2]).id == pre.messages@[
                            k].conversation_id && doomed@.contains(pre.conversations@[k2].chat_id);
                        assert(chat_torn(
                            pre.chats@,
                            pre.participants@,
                            pre.conversations@[k2].chat_id,
                            owner_id,
                            u,
                        ));
                        assert(conv_torn(
                            pre.chats@,
                            pre.participants@,
                            pre.conversations@,
                            pre.messages@[k].conversation_id,
                            owner_id,
                            u,
                        ));
                        assert(msg_torn(
                            pre.chats@,
                            pre.participants@,
                            pre.conversations@,
                            pre.messages@,
                            rc.message_id,
                            owner_id,
                            u,
                        ));
                    }
                    if msg_torn(
                        pre.chats@,
                        pre.participants@,
                        pre.conversations@,
                        pre.messages@,
                        rc.message_id,
                        owner_id,
                        u,
                    ) {
                        let k = choose|k: int|
                            0 <= k < pre.messages@.len() && (#[trigger] pre.messages@[k]).id
                                == rc.message_id && conv_torn(
                                pre.chats@,
                                pre.participants@,
                                pre.conversations@,
                                pre.messages@[k].conversation_id,
                                owner_id,
                                u,
                            );
                        let k2 = choose|k2: int|
                            0 <= k2 < pre.conversations@.len() && (
                            #[trigger] pre.conversations@[k2]).id == pre.messages@[
                            k].conversation_id && chat_torn(
                                pre.chats@,
                                pre.participants@,
                                pre.conversations@[k2].chat_id,
                                owner_id,
                                u,
                            );
                        assert(doomed@.contains(pre.conversations@[k2].chat_id));
                        assert(message_gone(pre.conversations@, doomed@, pre.messages@[k]));
                        assert(receipt_gone(pre.messages@, pre.conversations@, doomed@, rc));
                    }
                }
                lemma_filter_congruent(
                    pre.receipts@,
                    |rc: MessageReceipt| !receipt_gone(
                        pre.messages@,
                        pre.conversations@,
                        doomed@,
                        rc,
                    ),
                    keep_rcpt,
                );
            }

            // well-formedness of the shrunken store
            crate::keys::lemma_filter_table(pre.chats@, keep_chat, pre.next_id);
            crate::keys::lemma_filter_table(pre.conversations@, keep_conv, pre.next_id);
            crate::keys::lemma_filter_table(pre.messages@, keep_msg, pre.next_id);
            crate::keys::lemma_filter_distinct_by(
                pre.participants@,
                keep_part,
                |p: ChatParticipant| (p.chat_id, p.user_id),
            );
            crate::keys::lemma_filter_distinct_by(
                pre.receipts@,
                keep_rcpt,
                |rc: MessageReceipt| (rc.message_id, rc.receiver_id),
            );
            if !self.some_participant_of_user(u) && !self.some_contact_owned_by(u)
                && !link_stays {
                crate::keys::lemma_filter_table(
                    pre.agents@,
                    |a: Agent| a.user_id != Some(u),
                    pre.next_id,
                );
            }
            assert(self.ids_ok());
            assert(crate::store::pairs_unique(self.participants@)) by {
                let f = |p: ChatParticipant| (p.chat_id, p.user_id);
                assert forall|i: int, j: int|
                    0 <= i < j < self.participants@.len() implies !(self.participants@[i].chat_id
                    == self.participants@[j].chat_id && self.participants@[i].user_id
                    == self.participants@[j].user_id) by {
                    assert(f(self.participants@[i]) != f(self.participants@[j]));
                }
            }
            assert forall|i: int| 0 <= i < self.participants@.len() implies has_key(
                self.chats@,
                (#[trigger] self.participants@[i]).chat_id,
            ) by {
                let p = self.participants@[i];
                assert(keep_part(p)) by {
                    assert(pre.participants@.filter(keep_part)[i] == p);
                }
                assert(pre.participants@.contains(p));
                let w = choose|w: int| 0 <= w < pre.participants@.len() && pre.participants@[w] == p;
                assert(has_key(pre.chats@, p.chat_id));
                let cw = choose|cw: int|
                    0 <= cw < pre.chats@.len() && (#[trigger] pre.chats@[cw].key_spec())
                        == p.chat_id;
                assert(keep_chat(pre.chats@[cw]));
                assert(pre.chats@.filter(keep_chat).contains(pre.chats@[cw]));
                let fw = choose|fw: int|
                    0 <= fw < self.chats@.len() && self.chats@[fw] == pre.chats@[cw];
                assert(self.chats@[fw].key_spec() == p.chat_id);
            }
            assert forall|i: int| 0 <= i < self.participants@.len() implies has_key(
                self.users@,
                (#[trigger] self.participants@[i]).user_id,
            ) && (match self.participants@[i].last_read_message_id {
                Some(cu) => cu < self.next_id,
                None => true,
            }) && self.participants@[i].unread_count <= self.next_id by {
                let p = self.participants@[i];
                assert(pre.participants@.contains(p));
                let w = choose|w: int| 0 <= w < pre.participants@.len() && pre.participants@[w] == p;
                assert(has_key(pre.users@, p.user_id));
                if !has_key(self.users@, p.user_id) {
                    assert(self.users@ == pre.users@.remove(key_index(pre.users@, u)));
                    assert(p.user_id == u);
                    assert(self.some_participant_of_user(u));
                    assert(false);
                }
            }
            assert(self.participants_ok());
            assert(self.conversations_ok()) by {
                assert forall|i: int| 0 <= i < self.conversations@.len() implies has_key(
                    self.chats@,
                    (#[trigger] self.conversations@[i]).chat_id,
                ) by {
                    let v = self.conversations@[i];
                    assert(keep_conv(v)) by {
                        assert(pre.conversations@.filter(keep_conv)[i] == v);
                    }
                    assert(pre.conversations@.contains(v));
                    let w = choose|w: int|
                        0 <= w < pre.conversations@.len() && pre.conversations@[w] == v;
                    assert(has_key(pre.chats@, v.chat_id));
                    let cw = choose|cw: int|
                        0 <= cw < pre.chats@.len() && (#[trigger] pre.chats@[cw].key_spec())
                            == v.chat_id;
                    assert(keep_chat(pre.chats@[cw]));
                    assert(pre.chats@.filter(keep_chat).contains(pre.chats@[cw]));
                    let fw = choose|fw: int|
                        0 <= fw < self.chats@.len() && self.chats@[fw] == pre.chats@[cw];
                    assert(self.chats@[fw].key_spec() == v.chat_id);
                }
                let fcid = |v: Conversation| v.chat_id;
                crate::keys::lemma_filter_distinct_by(pre.conversations@, keep_conv, fcid);
                assert forall|p: int, q: int|
                    0 <= p < q < self.conversations@.len() implies self.conversations@[p].chat_id
                    != self.conversations@[q].chat_id by {
                    assert(fcid(pre.conversations@.filter(keep_conv)[p]) != fcid(
                        pre.conversations@.filter(keep_conv)[q],
                    ));
                }
            }
            assert(self.messages_ok()) by {
                assert forall|i: int| 0 <= i < self.messages@.len() implies has_key(
                    self.conversations@,
                    (#[trigger] self.messages@[i]).conversation_id,
                ) by {
                    let m = self.messages@[i];
                    assert(keep_msg(m)) by {
                        assert(pre.messages@.filter(keep_msg)[i] == m);
                    }
                    assert(pre.messages@.contains(m));
                    let w = choose|w: int| 0 <= w < pre.messages@.len() && pre.messages@[w] == m;
                    assert(has_key(pre.conversations@, m.conversation_id));
                    let vw = choose|vw: int|
                        0 <= vw < pre.conversations@.len() && (
                        #[trigger] pre.conversations@[vw].key_spec()) == m.conversation_id;
                    assert(keep_conv(pre.conversations@[vw])) by {
                        if chat_torn(
                            pre.chats@,
                            pre.participants@,
                            pre.conversations@[vw].chat_id,
                            owner_id,
                            u,
                        ) {
                            assert(conv_torn(
                                pre.chats@,
                                pre.participants@,
                                pre.conversations@,
                                m.conversation_id,
                                owner_id,
                                u,
                            ));
                            assert(false);
                        }
                    }
                    assert(pre.conversations@.filter(keep_conv).contains(pre.conversations@[vw]));
                    let fw = choose|fw: int|
                        0 <= fw < self.conversations@.len() && self.conversations@[fw]
                            == pre.conversations@[vw];
                    assert(self.conversations@[fw].key_spec() == m.conversation_id);
                }
            }
            assert(self.receipts_ok()) by {
                let frc = |rc: MessageReceipt| (rc.message_id, rc.receiver_id);
                assert forall|p: int, q: int|
                    0 <= p < q < self.receipts@.len() implies !(self.receipts@[p].message_id
                    == self.receipts@[q].message_id && self.receipts@[p].receiver_id
                    == self.receipts@[q].receiver_id) by {
                    assert(frc(pre.receipts@.filter(keep_rcpt)[p]) != frc(
                        pre.receipts@.filter(keep_rcpt)[q],
                    ));
                }
                assert forall|i: int| 0 <= i < self.receipts@.len() implies exists|k: int|
                    0 <= k < self.messages@.len() && (#[trigger] self.messages@[k]).id == (
                    #[trigger] self.receipts@[i]).message_id && self.messages@[k].sender_id
                        != self.receipts@[i].receiver_id by {
                    let rc = self.receipts@[i];
                    assert(keep_rcpt(rc)) by {
                        assert(pre.receipts@.filter(keep_rcpt)[i] == rc);
                    }
                    assert(pre.receipts@.contains(rc));
                    let w = choose|w: int| 0 <= w < pre.receipts@.len() && pre.receipts@[w] == rc;
                    let mw = choose|mw: int|
                        0 <= mw < pre.messages@.len() && (#[trigger] pre.messages@[mw]).id
                            == rc.message_id && pre.messages@[mw].sender_id != rc.receiver_id;
                    assert(keep_msg(pre.messages@[mw])) by {
                        if conv_torn(
                            pre.chats@,
                            pre.participants@,
                            pre.conversations@,
                            pre.messages@[mw].conversation_id,
                            owner_id,
                            u,
                        ) {
                            assert(msg_torn(
                                pre.chats@,
                                pre.participants@,
                                pre.conversations@,
                                pre.messages@,
                                rc.message_id,
                                owner_id,
                                u,
                            ));
                            assert(false);
                        }
                    }
                    assert(pre.messages@.filter(keep_msg).contains(pre.messages@[mw]));
                    let fw = choose|fw: int|
                        0 <= fw < self.messages@.len() && self.messages@[fw] == pre.messages@[mw];
                    assert(self.messages@[fw].id == rc.message_id && self.messages@[fw].sender_id
                        != rc.receiver_id);
                }
            }
            assert(self.contacts_ok()) by {
                assert forall|i: int|
                    0 <= i < self.contacts@.len() implies has_key(
                    self.contact_groups@,
                    (#[trigger] self.contacts@[i]).group_id,
                ) && has_key(self.users@, self.contacts@[i].owner_id) && has_key(
                    self.contact_user_links@,
                    self.contacts@[i].user_link_id,
                ) by {
                    let crow = self.contacts@[i];
                    let iw: int = if i < ci as int {
                        i
                    } else {
                        i + 1
                    };
                    assert(crow == pre.contacts@[iw]);
                    assert(has_key(pre.contact_groups@, crow.group_id));
                    assert(has_key(pre.users@, crow.owner_id));
                    assert(has_key(pre.contact_user_links@, crow.user_link_id));
                    if !has_key(self.contact_groups@, crow.group_id) {
                        assert(crow.group_id == group_id);
                        assert(self.some_contact_in_group(group_id));
                        assert(false);
                    }
                    if !has_key(self.users@, crow.owner_id) {
                        assert(crow.owner_id == u);
                        assert(self.some_contact_owned_by(u));
                        assert(false);
                    }
                    if !has_key(self.contact_user_links@, crow.user_link_id) {
                        assert(crow.user_link_id == link_id);
                        assert(self.some_contact_with_link(link_id));
                        assert(false);
                    }
                }
            }
            assert(self.agents_ok()) by {
                assert forall|i: int|
                    0 <= i < self.agents@.len() implies match (
                #[trigger] self.agents@[i]).user_id {
                    Some(au) => has_key(self.users@, au),
                    None => true,
                } by {
                    let arow = self.agents@[i];
                    if self.agents@ == pre.agents@ {
                        match arow.user_id {
                            Some(au) => {
                                assert(has_key(pre.users@, au));
                                if !has_key(self.users@, au) {
                                    assert(au == u);
                                    assert(self.some_agent_of_user(u)) by {
                                        assert(self.agents@[i].user_id == Some(u));
                                    }
                                    assert(false);
                                }
                            },
                            None => {},
                        }
                    } else {
                        let keep_agent = |a: Agent| a.user_id != Some(u);
                        assert(keep_agent(arow)) by {
                            assert(pre.agents@.filter(keep_agent)[i] == arow);
                        }
                        assert(pre.agents@.contains(arow));
                        let w = choose|w: int| 0 <= w < pre.agents@.len() && pre.agents@[w] == arow;
                        match arow.user_id {
                            Some(au) => {
                                assert(has_key(pre.users@, au));
                                assert(au != u);
                            },
                            None => {},
                        }
                    }
                }
            }
            lemma_wf_parts(*self);
            if !link_stays && !self.some_participant_of_user(u) && !self.some_contact_owned_by(u) {
                assert(!self.some_agent_of_user(u)) by {
                    if self.some_agent_of_user(u) {
                        let k = choose|k: int|
                            0 <= k < self.agents@.len() && (#[trigger] self.agents@[k]).user_id
                                == Some(u);
                        let keep_agent = |a: Agent| a.user_id != Some(u);
                        assert(keep_agent(pre.agents@.filter(keep_agent)[k]));
                        assert(false);
                    }
                }
            }
        }
        Ok(())
    }

    /// Delete a contact and everything that only it kept alive.
    ///
    /// The thin service entry over the teardown: it checks that the
    /// contact exists and then removes it with its dependent graph, with
    /// the same cascade guarantees as
    /// [`Store::delete_contact_with_related_data`].
    pub fn delete_contact(&mut self, contact_id: u64, owner_id: u64) -> (r: Result<(), StoreError>)
        requires
            old(self).wf(),
        ensures
            final(self).wf(),
            ({
                let pre = *old(self);
                let ct = row_of(pre.contacts@, contact_id);
                let lnk = ct.user_link_id;
                let grp = ct.group_id;
                let u = row_of(pre.contact_user_links@, lnk).user_id;
                match r {
                    Ok(()) => {
                        &&& has_key(pre.contacts@, contact_id)
                        &&& !fault_in(pre.fault_step, 1)
                        &&& final(self).contacts@ == pre.contacts@.remove(
                            key_index(pre.contacts@, contact_id),
                        )
                        &&& !has_key(final(self).contacts@, contact_id)
                        &&& final(self).chats@ == pre.chats@.filter(
                            |c: Chat| !chat_torn(pre.chats@, pre.participants@, c.id, owner_id, u),
                        )
                        &&& final(self).participants@ == pre.participants@.filter(
                            |p: ChatParticipant| !chat_torn(
                                pre.chats@,
                                pre.participants@,
                                p.chat_id,
                                owner_id,
                                u,
                            ),
                        )
                        &&& final(self).conversations@ == pre.conversations@.filter(
                            |v: Conversation| !chat_torn(
                                pre.chats@,
                                pre.participants@,
                                v.chat_id,
                                owner_id,
                                u,
                            ),
                        )
                        &&& final(self).messages@ == pre.messages@.filter(
                            |m: Message| !conv_torn(
                                pre.chats@,
                                pre.participants@,
                                pre.conversations@,
                                m.conversation_id,
                                owner_id,
                                u,
                            ),
                        )
                        &&& final(self).receipts@ == pre.receipts@.filter(
                            |rc: MessageReceipt| !msg_torn(
                                pre.chats@,
                                pre.participants@,
                                pre.conversations@,
                                pre.messages@,
                                rc.message_id,
                                owner_id,
                                u,
                            ),
                        )
                        &&& (final(self).some_contact_in_group(grp) ==> final(self).contact_groups@
                            == pre.contact_groups@)
                        &&& (!final(self).some_contact_in_group(grp) ==> final(self).contact_groups@ == pre.contact_groups@.remove(
                            key_index(pre.contact_groups@, grp),
                        ) && !has_key(final(self).contact_groups@, grp))
                        &&& (final(self).some_contact_with_link(lnk) ==> final(self).contact_user_links@ == pre.contact_user_links@ && final(self).users@
                            == pre.users@ && final(self).agents@ == pre.agents@)
                        &&& (!final(self).some_contact_with_link(lnk) ==> final(self).contact_user_links@ == pre.contact_user_links@.remove(
                            key_index(pre.contact_user_links@, lnk),
                        ) && !has_key(final(self).contact_user_links@, lnk))
                        &&& ((!final(self).some_contact_with_link(lnk) && !final(self).some_participant_of_user(u) && !final(self).some_contact_owned_by(u))
                            ==> (!has_key(final(self).users@, u) && !final(self).some_agent_of_user(
                            u,
                        )))
                        &&& ((!final(self).some_contact_with_link(lnk) && (final(self).some_participant_of_user(u) || final(self).some_contact_owned_by(u)))
                            ==> (final(self).users@ == pre.users@ && final(self).agents@
                            == pre.agents@))
                        &&& final(self).next_id == pre.next_id
                    },
                    Err(e) => {
                        &&& unchanged_tables(pre, *final(self))
                        &&& (e == StoreError::NotFound || e == StoreError::DatabaseError)
                        &&& (e == StoreError::NotFound <==> !has_key(pre.contacts@, contact_id))
                        &&& (e == StoreError::DatabaseError <==> has_key(pre.contacts@, contact_id)
                            && fault_in(pre.fault_step, 1))
                    },
                }
            }),
    {
        self.delete_contact_with_related_data(contact_id, owner_id)
    }
}

} // verus!
