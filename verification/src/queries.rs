use vstd::prelude::*;

use crate::error::StoreError;
use crate::keys::find_key;
use crate::keys::has_key;
use crate::keys::lemma_key_index;
use crate::keys::row_of;
use crate::keys::Keyed;
use crate::rows::Agent;
use crate::rows::Chat;
use crate::rows::ChatParticipant;
use crate::rows::ChatWithDetails;
use crate::rows::Contact;
use crate::rows::ContactGroup;
use crate::rows::ContactUserLink;
use crate::rows::Conversation;
use crate::rows::Message;
use crate::rows::MessageReceipt;
use crate::rows::SortBy;
use crate::store::Store;

verus! {

broadcast use {
    crate::keys::group_key_lemmas,
    vstd::seq_lib::group_filter_ensures,
    vstd::seq_lib::group_seq_properties,
    Seq::lemma_filter_push,
    Seq::lemma_filter_len_push,
};


/// Byte-wise lexicographic order, the BINARY collation of a relational
/// store: the empty sequence first, then by first differing byte.
pub open spec fn lex_le(a: Seq<u8>, b: Seq<u8>) -> bool
    decreases a.len(),
{
    if a.len() == 0 {
        true
    } else if b.len() == 0 {
        false
    } else if a[0] < b[0] {
        true
    } else if a[0] > b[0] {
        false
    } else {
        lex_le(a.drop_first(), b.drop_first())
    }
}

/// Any two byte sequences compare under `lex_le` one way or the other.
pub proof fn lemma_lex_le_total(a: Seq<u8>, b: Seq<u8>)
    ensures
        lex_le(a, b) || lex_le(b, a),
    decreases a.len(),
{
    if a.len() > 0 && b.len() > 0 && a[0] == b[0] {
        lemma_lex_le_total(a.drop_first(), b.drop_first());
    }
}

/// `lex_le` is transitive.
pub proof fn lemma_lex_le_trans(a: Seq<u8>, b: Seq<u8>, c: Seq<u8>)
    requires
        lex_le(a, b),
        lex_le(b, c),
    ensures
        lex_le(a, c),
    decreases a.len(),
{
    if a.len() > 0 {
        assert(b.len() > 0);
        assert(c.len() > 0);
        if a[0] == b[0] && b[0] == c[0] {
            lemma_lex_le_trans(a.drop_first(), b.drop_first(), c.drop_first());
        }
    }
}

/// The listing order of a user's chats: newest cached message first with
/// chats lacking one last, newest creation or update first, or titles in
/// byte-wise lexicographic order.
pub open spec fn chat_le(sort_by: SortBy, x: ChatWithDetails, y: ChatWithDetails) -> bool {
    match sort_by {
        SortBy::LastMessageTime => match (x.chat.last_message_time, y.chat.last_message_time) {
            (Some(a), Some(b)) => a >= b,
            (Some(_), None) => true,
            (None, Some(_)) => false,
            (None, None) => true,
        },
        SortBy::CreatedAt => x.chat.created_at >= y.chat.created_at,
        SortBy::Title => lex_le(
            vstd::utf8::encode_utf8(x.chat.title@),
            vstd::utf8::encode_utf8(y.chat.title@),
        ),
        SortBy::UpdatedAt => x.chat.updated_at >= y.chat.updated_at,
    }
}

/// Any two listing entries compare under `chat_le` one way or the other.
pub proof fn lemma_chat_le_total(sort_by: SortBy, x: ChatWithDetails, y: ChatWithDetails)
    ensures
        chat_le(sort_by, x, y) || chat_le(sort_by, y, x),
{
    match sort_by {
        SortBy::Title => {
            lemma_lex_le_total(
                vstd::utf8::encode_utf8(x.chat.title@),
                vstd::utf8::encode_utf8(y.chat.title@),
            );
        },
        _ => {},
    }
}

/// `chat_le` is transitive.
pub proof fn lemma_chat_le_trans(
    sort_by: SortBy,
    x: ChatWithDetails,
    y: ChatWithDetails,
    z: ChatWithDetails,
)
    requires
        chat_le(sort_by, x, y),
        chat_le(sort_by, y, z),
    ensures
        chat_le(sort_by, x, z),
{
    match sort_by {
        SortBy::Title => {
            lemma_lex_le_trans(
                vstd::utf8::encode_utf8(x.chat.title@),
                vstd::utf8::encode_utf8(y.chat.title@),
                vstd::utf8::encode_utf8(z.chat.title@),
            );
        },
        _ => {},
    }
}

/// One entry of a user's chat listing, as the join of the chat row with
/// the caller's membership row produces it.
pub open spec fn listing_entry(s: Store, p: ChatParticipant) -> ChatWithDetails {
    ChatWithDetails {
        chat: row_of(s.chats@, p.chat_id),
        role: p.role,
        unread_count: p.unread_count,
        last_read_message_id: p.last_read_message_id,
    }
}

/// The membership rows that a user's chat listing shows: the user's own
/// rows, without the chats whose cache is empty unless those are asked
/// for.
pub open spec fn listed_pred(s: Store, user_id: u64, include_empty: bool) -> spec_fn(
    ChatParticipant,
) -> bool {
    |p: ChatParticipant| p.user_id == user_id && (include_empty || row_of(
        s.chats@,
        p.chat_id,
    ).last_message_id is Some)
}

/// Whether `x` stands not after `y` in the listing order.
fn chat_le_exec(sort_by: SortBy, x: &ChatWithDetails, y: &ChatWithDetails) -> (b: bool)
    ensures
        b == chat_le(sort_by, *x, *y),
{
    match sort_by {
        SortBy::LastMessageTime => match (&x.chat.last_message_time, &y.chat.last_message_time) {
            (Some(a), Some(b)) => *a >= *b,
            (Some(_), None) => true,
            (None, Some(_)) => false,
            (None, None) => true,
        },
        SortBy::CreatedAt => x.chat.created_at >= y.chat.created_at,
        SortBy::Title => {
            let ab = x.chat.title.as_str().as_bytes();
            let bb = y.chat.title.as_str().as_bytes();
            lex_le_exec(ab, bb)
        },
        SortBy::UpdatedAt => x.chat.updated_at >= y.chat.updated_at,
    }
}

/// Byte-wise lexicographic comparison.
fn lex_le_exec(a: &[u8], b: &[u8]) -> (r: bool)
    ensures
        r == lex_le(a@, b@),
{
    let na = a.len();
    let nb = b.len();
    let mut i: usize = 0;
    while i < na && i < nb
        invariant
            i <= na,
            i <= nb,
            na == a@.len(),
            nb == b@.len(),
            lex_le(a@, b@) == lex_le(a@.skip(i as int), b@.skip(i as int)),
            lex_le(b@, a@) == lex_le(b@.skip(i as int), a@.skip(i as int)),
            forall|k: int| 0 <= k < i ==> a@[k] == b@[k],
        decreases na - i,
    {
        proof {
            let sa = a@.skip(i as int);
            let sb = b@.skip(i as int);
            assert(sa[0] == a@[i as int] && sb[0] == b@[i as int]);
            assert(sa.drop_first() =~= a@.skip(i as int + 1));
            assert(sb.drop_first() =~= b@.skip(i as int + 1));
        }
        if a[i] < b[i] {
            return true;
        }
        if a[i] > b[i] {
            return false;
        }
        i += 1;
    }
    proof {
        if i >= na {
            assert(a@.skip(i as int).len() == 0);
        } else {
            assert(b@.skip(i as int).len() == 0);
            assert(a@.skip(i as int).len() > 0);
        }
    }
    na <= nb
}

/// Insert `e` into the sorted listing `out`, keeping it sorted.
fn insert_sorted(out: &mut Vec<ChatWithDetails>, e: ChatWithDetails, sort_by: SortBy)
    requires
        forall|p: int, q: int|
            0 <= p < q < old(out)@.len() ==> chat_le(
                sort_by,
                #[trigger] old(out)@[p],
                #[trigger] old(out)@[q],
            ),
    ensures
        final(out)@.len() == old(out)@.len() + 1,
        forall|p: int, q: int|
            0 <= p < q < final(out)@.len() ==> chat_le(
                sort_by,
                #[trigger] final(out)@[p],
                #[trigger] final(out)@[q],
            ),
        forall|x: ChatWithDetails| #[trigger]
            final(out)@.contains(x) <==> (old(out)@.contains(x) || x == e),
{
    let n = out.len();
    let mut k: usize = 0;
    while k < n && chat_le_exec(sort_by, &out[k], &e)
        invariant
            k <= n,
            n == out@.len(),
            out@ == old(out)@,
            forall|p: int| 0 <= p < k ==> chat_le(sort_by, #[trigger] out@[p], e),
        decreases n - k,
    {
        k += 1;
    }
    proof {
        if k < n {
            assert(!chat_le(sort_by, out@[k as int], e));
            lemma_chat_le_total(sort_by, out@[k as int], e);
            assert(chat_le(sort_by, e, out@[k as int]));
        }
    }
    let ghost pre = out@;
    let ghost kw: int = k as int;
    out.insert(k, e);
    proof {
        assert(out@ == pre.insert(kw, e));
        assert forall|p: int| 0 <= p < out@.len() implies out@[p] == (if p < kw {
            pre[p]
        } else if p == kw {
            e
        } else {
            pre[p - 1]
        }) by {}
        assert forall|p: int, q: int| 0 <= p < q < out@.len() implies chat_le(
            sort_by,
            #[trigger] out@[p],
            #[trigger] out@[q],
        ) by {
            if p < kw && q < kw {
                assert(chat_le(sort_by, pre[p], pre[q]));
            } else if p < kw && q == kw {
                assert(chat_le(sort_by, pre[p], e));
            } else if p < kw && q > kw {
                assert(chat_le(sort_by, pre[p], pre[q - 1]));
            } else if p == kw {
                assert(q > kw);
                assert(chat_le(sort_by, e, pre[kw]));
                if q - 1 == kw {
                    assert(out@[q] == pre[kw]);
                } else {
                    assert(chat_le(sort_by, pre[kw], pre[q - 1]));
                    lemma_chat_le_trans(sort_by, e, pre[kw], pre[q - 1]);
                }
            } else {
                assert(p > kw && q > kw);
                assert(chat_le(sort_by, pre[p - 1], pre[q - 1]));
            }
        }
        assert forall|x: ChatWithDetails| #[trigger]
            out@.contains(x) <==> (pre.contains(x) || x == e) by {
            if out@.contains(x) {
                let w = choose|w: int| 0 <= w < out@.len() && out@[w] == x;
                if w < kw {
                    assert(pre[w] == x);
                } else if w == kw {
                } else {
                    assert(pre[w - 1] == x);
                }
            }
            if pre.contains(x) {
                let w = choose|w: int| 0 <= w < pre.len() && pre[w] == x;
                if w < kw {
                    assert(out@[w] == x);
                } else {
                    assert(out@[w + 1] == x);
                }
            }
            if x == e {
                assert(out@[kw] == x);
            }
        }
    }
}

/// A message belongs to chat `chat_id`: its conversation is the chat's.
pub open spec fn message_of_chat(convs: Seq<Conversation>, m: Message, chat_id: u64) -> bool {
    exists|k: int|
        0 <= k < convs.len() && (#[trigger] convs[k]).id == m.conversation_id && convs[k].chat_id
            == chat_id
}

/// All messages of chat `chat_id`, oldest first: the table keeps
/// insertion order and ids grow over time, so this is ascending commit
/// order.  It coincides with ascending `created_at` whenever the
/// caller's clock is monotonic; the clock is an argument of the write
/// operations, so the store itself can promise no more than that.
pub open spec fn chat_messages(s: Store, chat_id: u64) -> Seq<Message> {
    s.messages@.filter(|m: Message| message_of_chat(s.conversations@, m, chat_id))
}

impl Store {
    /// Look a chat up by id.
    pub fn get_chat(&self, id: u64) -> (r: Result<Chat, StoreError>)
        requires
            self.wf(),
        ensures
            match r {
                Ok(c) => has_key(self.chats@, id) && c == row_of(self.chats@, id),
                Err(e) => e == StoreError::NotFound && !has_key(self.chats@, id),
            },
    {
        match find_key(&self.chats, id) {
            Some(i) => {
                proof {
                    lemma_key_index(self.chats@, i as int);
                }
                Ok(self.chats[i].dup())
            },
            None => Err(StoreError::NotFound),
        }
    }

    /// Look a message up by id.
    pub fn get_message(&self, id: u64) -> (r: Result<Message, StoreError>)
        requires
            self.wf(),
        ensures
            match r {
                Ok(m) => has_key(self.messages@, id) && m == row_of(self.messages@, id),
                Err(e) => e == StoreError::NotFound && !has_key(self.messages@, id),
            },
    {
        match find_key(&self.messages, id) {
            Some(i) => {
                proof {
                    lemma_key_index(self.messages@, i as int);
                }
                Ok(self.messages[i].dup())
            },
            None => Err(StoreError::NotFound),
        }
    }

    /// Look a contact up by id.
    pub fn get_contact(&self, id: u64) -> (r: Result<Contact, StoreError>)
        requires
            self.wf(),
        ensures
            match r {
                Ok(c) => has_key(self.contacts@, id) && c == row_of(self.contacts@, id),
                Err(e) => e == StoreError::NotFound && !has_key(self.contacts@, id),
            },
    {
        match find_key(&self.contacts, id) {
            Some(i) => {
                proof {
                    lemma_key_index(self.contacts@, i as int);
                }
                Ok(self.contacts[i].dup())
            },
            None => Err(StoreError::NotFound),
        }
    }

    /// Look a contact group up by id.
    pub fn get_contact_group(&self, id: u64) -> (r: Result<ContactGroup, StoreError>)
        requires
            self.wf(),
        ensures
            match r {
                Ok(g) => has_key(self.contact_groups@, id) && g == row_of(self.contact_groups@, id),
                Err(e) => e == StoreError::NotFound && !has_key(self.contact_groups@, id),
            },
    {
        match find_key(&self.contact_groups, id) {
            Some(i) => {
                proof {
                    lemma_key_index(self.contact_groups@, i as int);
                }
                Ok(self.contact_groups[i].dup())
            },
            None => Err(StoreError::NotFound),
        }
    }

    /// Look a user link up by id.
    pub fn get_contact_user_link(&self, id: u64) -> (r: Result<ContactUserLink, StoreError>)
        requires
            self.wf(),
        ensures
            match r {
                Ok(l) => has_key(self.contact_user_links@, id) && l == row_of(
                    self.contact_user_links@,
                    id,
                ),
                Err(e) => e == StoreError::NotFound && !has_key(self.contact_user_links@, id),
            },
    {
        match find_key(&self.contact_user_links, id) {
            Some(i) => {
                proof {
                    lemma_key_index(self.contact_user_links@, i as int);
                }
                Ok(self.contact_user_links[i].dup())
            },
            None => Err(StoreError::NotFound),
        }
    }

    /// Look an agent up by id.
    pub fn get_agent(&self, id: u64) -> (r: Result<Agent, StoreError>)
        requires
            self.wf(),
        ensures
            match r {
                Ok(a) => has_key(self.agents@, id) && a == row_of(self.agents@, id),
                Err(e) => e == StoreError::NotFound && !has_key(self.agents@, id),
            },
    {
        match find_key(&self.agents, id) {
            Some(i) => {
                proof {
                    lemma_key_index(self.agents@, i as int);
                }
                Ok(self.agents[i].dup())
            },
            None => Err(StoreError::NotFound),
        }
    }

    /// The membership row of `user_id` in `chat_id`, if any.
    pub fn get_participant(&self, chat_id: u64, user_id: u64) -> (r: Result<
        ChatParticipant,
        StoreError,
    >)
        requires
            self.wf(),
        ensures
            match r {
                Ok(p) => self.some_participant_pair(chat_id, user_id) && p
                    == self.participants@[crate::store::pair_index(
                    self.participants@,
                    chat_id,
                    user_id,
                )],
                Err(e) => e == StoreError::NotFound && !self.some_participant_pair(
                    chat_id,
                    user_id,
                ),
            },
    {
        match self.find_participant(chat_id, user_id) {
            Some(i) => {
                proof {
                    assert(self.some_participant_pair(chat_id, user_id));
                    let j = crate::store::pair_index(self.participants@, chat_id, user_id);
                    assert(0 <= j < self.participants@.len() && self.participants@[j].chat_id
                        == chat_id && self.participants@[j].user_id == user_id);
                    assert(j == i as int);
                }
                Ok(self.participants[i].dup())
            },
            None => Err(StoreError::NotFound),
        }
    }

    /// The receipt row of `(message_id, receiver_id)`, if any.
    pub fn get_receipt(&self, message_id: u64, receiver_id: u64) -> (r: Result<
        MessageReceipt,
        StoreError,
    >)
        requires
            self.wf(),
        ensures
            match r {
                Ok(rc) => crate::messaging::some_receipt_pair(*self, message_id, receiver_id) && rc
                    == self.receipts@[crate::messaging::receipt_pair_index(
                    self.receipts@,
                    message_id,
                    receiver_id,
                )],
                Err(e) => e == StoreError::NotFound && !crate::messaging::some_receipt_pair(
                    *self,
                    message_id,
                    receiver_id,
                ),
            },
    {
        match self.find_receipt(message_id, receiver_id) {
            Some(i) => {
                proof {
                    assert(crate::messaging::some_receipt_pair(*self, message_id, receiver_id));
                    let j = crate::messaging::receipt_pair_index(
                        self.receipts@,
                        message_id,
                        receiver_id,
                    );
                    assert(0 <= j < self.receipts@.len() && self.receipts@[j].message_id
                        == message_id && self.receipts@[j].receiver_id == receiver_id);
                    assert(j == i as int);
                }
                Ok(self.receipts[i].dup())
            },
            None => Err(StoreError::NotFound),
        }
    }

    /// One page of a chat's messages, newest first: page 1 starts at the
    /// most recently committed message and each page walks further into
    /// the past, the order a client renders a conversation's history in.
    ///
    /// `page` counts from 1; a page beyond the end is empty.  Fails with
    /// `NotFound` when the chat does not exist.
    pub fn get_chat_messages(&self, chat_id: u64, page: usize, page_size: usize) -> (r: Result<
        Vec<Message>,
        StoreError,
    >)
        requires
            self.wf(),
        ensures
            match r {
                Ok(v) => {
                    &&& has_key(self.chats@, chat_id)
                    &&& ({
                        let all = chat_messages(*self, chat_id);
                        let p: int = if page >= 1 {
                            page as int
                        } else {
                            1
                        };
                        let lo: int = if (p - 1) * (page_size as int) <= all.len() {
                            (p - 1) * (page_size as int)
                        } else {
                            all.len() as int
                        };
                        let hi: int = if lo + page_size as int <= all.len() {
                            lo + page_size as int
                        } else {
                            all.len() as int
                        };
                        v@ == all.reverse().subrange(lo, hi)
                    })
                },
                Err(e) => e == StoreError::NotFound && !has_key(self.chats@, chat_id),
            },
    {
        if find_key(&self.chats, chat_id).is_none() {
            return Err(StoreError::NotFound);
        }
        let ghost pred = |m: Message| message_of_chat(self.conversations@, m, chat_id);
        let conv = self.find_conversation_of_chat(chat_id);
        let n = self.messages.len();
        let mut all: Vec<Message> = Vec::new();
        let mut i: usize = 0;
        while i < n
            invariant
                i <= n,
                n == self.messages@.len(),
                self.wf(),
                all@ == self.messages@.take(i as int).filter(pred),
                pred == (|m: Message| message_of_chat(self.conversations@, m, chat_id)),
                match conv {
                    Some(k) => k < self.conversations@.len() && self.conversations@[
                    k as int].chat_id == chat_id,
                    None => forall|k: int|
                        0 <= k < self.conversations@.len() ==> (
                        #[trigger] self.conversations@[k]).chat_id != chat_id,
                },
            decreases n - i,
        {
            let keep = match conv {
                Some(k) => self.messages[i].conversation_id == self.conversations[k].id,
                None => false,
            };
            proof {
                let elem = self.messages@[i as int];
                assert(keep == pred(elem)) by {
                    match conv {
                        Some(k) => {
                            if keep {
                                assert(self.conversations@[k as int].id == elem.conversation_id
                                    && self.conversations@[k as int].chat_id == chat_id);
                            }
                            if pred(elem) {
                                let k2 = choose|k2: int|
                                    0 <= k2 < self.conversations@.len() && (
                                    #[trigger] self.conversations@[k2]).id == elem.conversation_id
                                        && self.conversations@[k2].chat_id == chat_id;
                                assert(k2 == k as int);
                            }
                        },
                        None => {
                            if pred(elem) {
                                let k2 = choose|k2: int|
                                    0 <= k2 < self.conversations@.len() && (
                                    #[trigger] self.conversations@[k2]).id == elem.conversation_id
                                        && self.conversations@[k2].chat_id == chat_id;
                                assert(false);
                            }
                        },
                    }
                }
                let pref = self.messages@.take(i as int);
                assert(self.messages@.take(i as int + 1) =~= pref.push(elem));
            }
            if keep {
                all.push(self.messages[i].dup());
            }
            i += 1;
        }
        proof {
            assert(self.messages@.take(n as int) =~= self.messages@);
        }
        let p = if page >= 1 {
            page
        } else {
            1
        };
        let total = all.len();
        let lo = match (p - 1).checked_mul(page_size) {
            Some(o) => if o <= total {
                o
            } else {
                total
            },
            None => total,
        };
        let hi = if page_size <= total - lo {
            lo + page_size
        } else {
            total
        };
        let mut out: Vec<Message> = Vec::new();
        let mut j: usize = lo;
        while j < hi
            invariant
                lo <= j <= hi <= all@.len(),
                total == all@.len(),
                out@.len() == j - lo,
                forall|k: int|
                    0 <= k < out@.len() ==> #[trigger] out@[k] == all@[total - 1 - lo - k],
            decreases hi - j,
        {
            out.push(all[total - 1 - j].dup());
            j += 1;
        }
        proof {
            assert(out@ =~= all@.reverse().subrange(lo as int, hi as int)) by {
                assert(out@.len() == hi - lo);
                if all@.len() > 0 {
                    assert forall|k: int| 0 <= k < out@.len() implies out@[k] == all@.reverse().subrange(
                        lo as int,
                        hi as int,
                    )[k] by {
                        assert(all@.reverse()[lo + k] == all@[all@.len() - 1 - (lo + k)]);
                    }
                } else {
                    assert(all@.reverse().subrange(lo as int, hi as int).len() == 0);
                }
            }
        }
        Ok(out)
    }
    /// A user's chat listing: their chats joined with their own
    /// membership row, optionally without chats that have no cached last
    /// message, sorted by the requested criterion.
    ///
    /// Purely read-only: a projection over the state that the write
    /// operations maintain.
    pub fn find_user_chats(&self, user_id: u64, include_empty: bool, sort_by: SortBy) -> (r: Vec<
        ChatWithDetails,
    >)
        requires
            self.wf(),
        ensures
            r@.len() == self.participants@.filter(
                listed_pred(*self, user_id, include_empty),
            ).len(),
            forall|p: int, q: int|
                0 <= p < q < r@.len() ==> chat_le(sort_by, #[trigger] r@[p], #[trigger] r@[q]),
            forall|x: ChatWithDetails| #[trigger]
                r@.contains(x) ==> exists|i: int|
                    0 <= i < self.participants@.len() && listed_pred(*self, user_id, include_empty)(
                        #[trigger] self.participants@[i],
                    ) && x == listing_entry(*self, self.participants@[i]),
            forall|i: int|
                0 <= i < self.participants@.len() && listed_pred(*self, user_id, include_empty)(
                    #[trigger] self.participants@[i],
                ) ==> r@.contains(listing_entry(*self, self.participants@[i])),
    {
        let ghost pred = listed_pred(*self, user_id, include_empty);
        let n = self.participants.len();
        let mut out: Vec<ChatWithDetails> = Vec::new();
        let mut i: usize = 0;
        while i < n
            invariant
                i <= n,
                n == self.participants@.len(),
                self.wf(),
                pred == listed_pred(*self, user_id, include_empty),
                out@.len() == self.participants@.take(i as int).filter(pred).len(),
                forall|p: int, q: int|
                    0 <= p < q < out@.len() ==> chat_le(
                        sort_by,
                        #[trigger] out@[p],
                        #[trigger] out@[q],
                    ),
                forall|x: ChatWithDetails| #[trigger]
                    out@.contains(x) ==> exists|k: int|
                        0 <= k < i && pred(#[trigger] self.participants@[k]) && x == listing_entry(
                            *self,
                            self.participants@[k],
                        ),
                forall|k: int|
                    0 <= k < i && pred(#[trigger] self.participants@[k]) ==> out@.contains(
                        listing_entry(*self, self.participants@[k]),
                    ),
            decreases n - i,
        {
            proof {
                let pref = self.participants@.take(i as int);
                let elem = self.participants@[i as int];
                assert(self.participants@.take(i as int + 1) =~= pref.push(elem));
            }
            let p = &self.participants[i];
            if p.user_id == user_id {
                let ck = match find_key(&self.chats, p.chat_id) {
                    Some(c) => c,
                    None => {
                        proof {
                            assert(has_key(
                                self.chats@,
                                self.participants@[i as int].chat_id,
                            ));
                            assert(false);
                        }
                        return out;
                    },
                };
                proof {
                    lemma_key_index(self.chats@, ck as int);
                }
                let listed = include_empty || self.chats[ck].last_message_id.is_some();
                if listed {
                    let entry = ChatWithDetails {
                        chat: self.chats[ck].dup(),
                        role: p.role,
                        unread_count: p.unread_count,
                        last_read_message_id: crate::rows::dup_opt_u64(&p.last_read_message_id),
                    };
                    proof {
                        assert(entry == listing_entry(*self, self.participants@[i as int]));
                        assert(pred(self.participants@[i as int]));
                    }
                    insert_sorted(&mut out, entry, sort_by);
                } else {
                    proof {
                        assert(!pred(self.participants@[i as int]));
                    }
                }
            } else {
                proof {
                    assert(!pred(self.participants@[i as int]));
                }
            }
            i += 1;
        }
        proof {
            assert(self.participants@.take(n as int) =~= self.participants@);
        }
        out
    }
    /// The conversation of a chat, if it has one.
    pub fn get_conversation_by_chat(&self, chat_id: u64) -> (r: Result<Conversation, StoreError>)
        requires
            self.wf(),
        ensures
            match r {
                Ok(v) => self.some_conversation_of_chat(chat_id) && v.chat_id == chat_id
                    && has_key(self.conversations@, v.id),
                Err(e) => e == StoreError::NotFound && !self.some_conversation_of_chat(chat_id),
            },
    {
        match self.find_conversation_of_chat(chat_id) {
            Some(i) => {
                proof {
                    lemma_key_index(self.conversations@, i as int);
                }
                Ok(self.conversations[i].dup())
            },
            None => Err(StoreError::NotFound),
        }
    }

    /// All contacts owned by `owner_id`, in insertion order.
    pub fn find_contacts_by_owner(&self, owner_id: u64) -> (r: Vec<Contact>)
        ensures
            r@ == self.contacts@.filter(|c: Contact| c.owner_id == owner_id),
    {
        let ghost pred = |c: Contact| c.owner_id == owner_id;
        let n = self.contacts.len();
        let mut out: Vec<Contact> = Vec::new();
        let mut i: usize = 0;
        while i < n
            invariant
                i <= n,
                n == self.contacts@.len(),
                out@ == self.contacts@.take(i as int).filter(pred),
                pred == (|c: Contact| c.owner_id == owner_id),
            decreases n - i,
        {
            proof {
                let pref = self.contacts@.take(i as int);
                let elem = self.contacts@[i as int];
                assert(self.contacts@.take(i as int + 1) =~= pref.push(elem));
            }
            if self.contacts[i].owner_id == owner_id {
                out.push(self.contacts[i].dup());
            }
            i += 1;
        }
        proof {
            assert(self.contacts@.take(n as int) =~= self.contacts@);
        }
        out
    }
}

} // verus!
