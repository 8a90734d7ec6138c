use vstd::prelude::*;
use vstd::std_specs::vec::vec_index_mut;

use crate::error::StoreError;
use crate::keys::find_key;
use crate::keys::has_key;
use crate::keys::key_index;
use crate::keys::keys_below;
use crate::keys::keys_unique;
use crate::keys::lemma_key_index;
use crate::keys::row_of;
use crate::keys::Keyed;
use crate::rows::dup_opt_u64;
use crate::rows::Chat;
use crate::rows::ChatParticipant;
use crate::rows::ChatType;
use crate::rows::Conversation;
use crate::rows::Message;
use crate::rows::MessageReceipt;
use crate::rows::MessageStatus;
use crate::rows::ParticipantRole;
use crate::rows::ReceiptStatus;
use crate::store::fault_in;
use crate::store::lemma_receipts_ok_same;
use crate::store::lemma_wf_parts;
use crate::store::lemma_wf_unchanged;
use crate::store::pair_index;
use crate::store::pairs_unique;
use crate::store::unchanged_tables;
use crate::store::Store;
use crate::store::ID_LIMIT;

verus! {

broadcast use {
    crate::keys::group_key_lemmas,
    vstd::seq_lib::group_filter_ensures,
    Seq::lemma_filter_push,
    Seq::lemma_filter_len_push,
    Seq::filter_distributes_over_add,
};

/// The read cursor of a participant as a plain number; `0` (never an
/// allocated id) stands for "nothing read yet".
pub open spec fn cursor_of(p: ChatParticipant) -> u64 {
    match p.last_read_message_id {
        Some(c) => c,
        None => 0,
    }
}

/// `m` is a message of chat `chat_id` (it belongs to a conversation of
/// that chat) that is visible to user `user_id`, that is, sent by someone
/// else.
pub open spec fn visible_in_chat(
    convs: Seq<Conversation>,
    m: Message,
    chat_id: u64,
    user_id: u64,
) -> bool {
    &&& exists|k: int|
        0 <= k < convs.len() && (#[trigger] convs[k]).id == m.conversation_id && convs[k].chat_id
            == chat_id
    &&& m.sender_id != user_id
}

/// The messages a user of a chat has not read: visible to them and newer
/// than the read cursor.
pub open spec fn unread_msg_pred(
    convs: Seq<Conversation>,
    chat_id: u64,
    user_id: u64,
    cursor: u64,
) -> spec_fn(Message) -> bool {
    |m: Message| visible_in_chat(convs, m, chat_id, user_id) && m.id > cursor
}

/// How many messages of `chat_id` are visible to `user_id` and newer
/// than `cursor`.
pub open spec fn unread_count_spec(s: Store, chat_id: u64, user_id: u64, cursor: u64) -> nat {
    s.messages@.filter(unread_msg_pred(s.conversations@, chat_id, user_id, cursor)).len()
}

/// How many messages the participant has not read.
pub open spec fn unread_of(s: Store, p: ChatParticipant) -> nat {
    unread_count_spec(s, p.chat_id, p.user_id, cursor_of(p))
}

impl Store {
    /// Every participant's `unread_count` equals the number of messages
    /// that are visible to them and newer than their read cursor.
    pub open spec fn unread_consistent(self) -> bool {
        forall|i: int|
            0 <= i < self.participants@.len() ==> (#[trigger] self.participants@[i]).unread_count
                == unread_of(self, self.participants@[i])
    }
}

/// `mid` is the id of one of chat `chat_id`'s messages.
pub open spec fn message_in_chat(s: Store, mid: u64, chat_id: u64) -> bool {
    exists|i: int, k: int|
        0 <= i < s.messages@.len() && 0 <= k < s.conversations@.len() && (
        #[trigger] s.messages@[i]).id == mid && (#[trigger] s.conversations@[k]).id
            == s.messages@[i].conversation_id && s.conversations@[k].chat_id == chat_id
}

/// Every message of chat `chat_id` that is visible to `user_id` has an
/// id of at most `mid`: the user has read everything up to `mid`.
pub open spec fn read_up_to(s: Store, chat_id: u64, user_id: u64, mid: u64) -> bool {
    forall|i: int|
        0 <= i < s.messages@.len() && visible_in_chat(
            s.conversations@,
            #[trigger] s.messages@[i],
            chat_id,
            user_id,
        ) ==> s.messages@[i].id <= mid
}

/// The participant row with its unread counter bumped by one.
pub open spec fn bump_unread(p: ChatParticipant) -> ChatParticipant {
    ChatParticipant {
        chat_id: p.chat_id,
        user_id: p.user_id,
        role: p.role,
        unread_count: (p.unread_count + 1) as u64,
        last_read_message_id: p.last_read_message_id,
        joined_at: p.joined_at,
    }
}

/// The participant rows of `chat_id` other than `sender_id`: the
/// receivers of a message sent there.
pub open spec fn receivers_of(
    parts: Seq<ChatParticipant>,
    chat_id: u64,
    sender_id: u64,
) -> Seq<ChatParticipant> {
    parts.filter(|p: ChatParticipant| p.chat_id == chat_id && p.user_id != sender_id)
}

/// The freshly delivered receipt of message `mid` for the participant.
pub open spec fn receipt_of(p: ChatParticipant, mid: u64, now: i64) -> MessageReceipt {
    MessageReceipt {
        message_id: mid,
        receiver_id: p.user_id,
        status: ReceiptStatus::Delivered,
        created_at: now,
        updated_at: now,
    }
}

/// The receipts fanned out when `sender_id` sends message `mid` into
/// `chat_id`: one delivered receipt per receiver.
pub open spec fn fanout_receipts(
    parts: Seq<ChatParticipant>,
    chat_id: u64,
    sender_id: u64,
    mid: u64,
    now: i64,
) -> Seq<MessageReceipt> {
    receivers_of(parts, chat_id, sender_id).map_values(
        |p: ChatParticipant| receipt_of(p, mid, now),
    )
}

/// The receipt rows of message `mid`.
pub open spec fn receipts_for_message(rs: Seq<MessageReceipt>, mid: u64) -> Seq<MessageReceipt> {
    rs.filter(|r: MessageReceipt| r.message_id == mid)
}

/// How many participant rows chat `chat_id` has.
pub open spec fn chat_member_count(parts: Seq<ChatParticipant>, chat_id: u64) -> nat {
    parts.filter(|p: ChatParticipant| p.chat_id == chat_id).len()
}

/// Position of the conversation of `chat_id`; meaningful when the chat
/// has one.
pub open spec fn conv_index_of_chat(convs: Seq<Conversation>, chat_id: u64) -> int {
    choose|i: int| 0 <= i < convs.len() && (#[trigger] convs[i]).chat_id == chat_id
}

/// The conversation of `chat_id`.
pub open spec fn conv_of_chat(convs: Seq<Conversation>, chat_id: u64) -> Conversation {
    convs[conv_index_of_chat(convs, chat_id)]
}

/// A participant row after `mark_as_read`: cursor at `message_id`,
/// nothing unread.
pub open spec fn mark_read_row(p: ChatParticipant, message_id: u64) -> ChatParticipant {
    ChatParticipant {
        chat_id: p.chat_id,
        user_id: p.user_id,
        role: p.role,
        unread_count: 0,
        last_read_message_id: Some(message_id),
        joined_at: p.joined_at,
    }
}

/// A participant row after `reset_unread_count`: nothing unread, cursor
/// untouched.
pub open spec fn reset_unread_row(p: ChatParticipant) -> ChatParticipant {
    ChatParticipant {
        chat_id: p.chat_id,
        user_id: p.user_id,
        role: p.role,
        unread_count: 0,
        last_read_message_id: p.last_read_message_id,
        joined_at: p.joined_at,
    }
}

/// Unread consistency makes a zero counter mean exactly that the
/// participant's cursor has reached every message visible to them: for
/// all chats and participants, `unread_count == 0` iff no visible
/// message is newer than the read cursor.
pub proof fn lemma_unread_zero_iff(s: Store, j: int)
    requires
        s.wf(),
        s.unread_consistent(),
        0 <= j < s.participants@.len(),
    ensures
        (s.participants@[j].unread_count == 0) <==> read_up_to(
            s,
            s.participants@[j].chat_id,
            s.participants@[j].user_id,
            cursor_of(s.participants@[j]),
        ),
{
    broadcast use {Seq::lemma_filter_contains, Seq::lemma_filter_pred, Seq::lemma_filter_len};

    let p = s.participants@[j];
    let pred = unread_msg_pred(s.conversations@, p.chat_id, p.user_id, cursor_of(p));
    assert(p.unread_count == s.messages@.filter(pred).len());
    if s.messages@.filter(pred).len() == 0 {
        assert forall|i: int|
            0 <= i < s.messages@.len() && visible_in_chat(
                s.conversations@,
                #[trigger] s.messages@[i],
                p.chat_id,
                p.user_id,
            ) implies s.messages@[i].id <= cursor_of(p) by {
            if s.messages@[i].id > cursor_of(p) {
                assert(pred(s.messages@[i]));
                assert(s.messages@.filter(pred).contains(s.messages@[i]));
                assert(false);
            }
        }
    }
    if read_up_to(s, p.chat_id, p.user_id, cursor_of(p)) {
        assert forall|i: int| 0 <= i < s.messages@.len() implies !pred(
            #[trigger] s.messages@[i],
        ) by {
            if visible_in_chat(s.conversations@, s.messages@[i], p.chat_id, p.user_id) {
                assert(s.messages@[i].id <= cursor_of(p));
            }
        }
        s.messages@.lemma_all_neg_filter_empty(pred);
    }
}

/// Some receipt row is for `(message_id, receiver_id)`.
pub open spec fn some_receipt_pair(s: Store, message_id: u64, receiver_id: u64) -> bool {
    exists|i: int|
        0 <= i < s.receipts@.len() && (#[trigger] s.receipts@[i]).message_id == message_id
            && s.receipts@[i].receiver_id == receiver_id
}

/// Position of the receipt row for `(message_id, receiver_id)`;
/// meaningful when the pair exists.
pub open spec fn receipt_pair_index(rs: Seq<MessageReceipt>, message_id: u64, receiver_id: u64) -> int {
    choose|i: int|
        0 <= i < rs.len() && (#[trigger] rs[i]).message_id == message_id && rs[i].receiver_id
            == receiver_id
}

/// The chat that message `mid` was committed into; meaningful when the
/// message exists in a well-formed store.
pub open spec fn chat_of_message(s: Store, mid: u64) -> u64 {
    row_of(s.conversations@, row_of(s.messages@, mid).conversation_id).chat_id
}

/// A participant row whose cursor was synced to `message_id`, with the
/// unread counter recomputed to `unread`.
pub open spec fn cursor_synced_row(p: ChatParticipant, message_id: u64, unread: u64) -> ChatParticipant {
    ChatParticipant {
        chat_id: p.chat_id,
        user_id: p.user_id,
        role: p.role,
        unread_count: unread,
        last_read_message_id: Some(message_id),
        joined_at: p.joined_at,
    }
}

/// A fresh membership row: nothing read, nothing unread.
pub open spec fn new_participant_row(
    chat_id: u64,
    user_id: u64,
    role: ParticipantRole,
    now: i64,
) -> ChatParticipant {
    ChatParticipant {
        chat_id: chat_id,
        user_id: user_id,
        role: role,
        unread_count: 0,
        last_read_message_id: None,
        joined_at: now,
    }
}

/// Two equally long sequences whose elements a predicate cannot tell
/// apart have equally many matches.
pub proof fn lemma_filter_congruent_pointwise<A>(s1: Seq<A>, s2: Seq<A>, pred: spec_fn(A) -> bool)
    requires
        s1.len() == s2.len(),
        forall|i: int| 0 <= i < s1.len() ==> (pred(#[trigger] s1[i]) == pred(s2[i])),
    ensures
        s1.filter(pred).len() == s2.filter(pred).len(),
    decreases s1.len(),
{
    reveal(Seq::filter);
    if s1.len() > 0 {
        lemma_filter_congruent_pointwise(s1.drop_last(), s2.drop_last(), pred);
        assert(pred(s1.last()) == pred(s2.last()));
    }
}

/// Two predicates that agree on a sequence's elements filter it alike.
pub proof fn lemma_filter_congruent<A>(s: Seq<A>, p1: spec_fn(A) -> bool, p2: spec_fn(A) -> bool)
    requires
        forall|i: int| 0 <= i < s.len() ==> (p1(#[trigger] s[i]) == p2(s[i])),
    ensures
        s.filter(p1) == s.filter(p2),
    decreases s.len(),
{
    reveal(Seq::filter);
    if s.len() > 0 {
        lemma_filter_congruent(s.drop_last(), p1, p2);
    }
}

/// A chat row with its last-message cache overwritten by message `m`.
pub open spec fn cache_updated_chat(c: Chat, m: Message, sender_name: String, now: i64) -> Chat {
    Chat {
        id: c.id,
        title: c.title,
        chat_type: c.chat_type,
        last_message_id: Some(m.id),
        last_message_content: Some(m.content),
        last_message_time: Some(now),
        last_message_sender: Some(sender_name),
        last_message_type: Some(m.content_type),
        created_at: c.created_at,
        updated_at: now,
    }
}

/// A filter that keeps every element keeps the whole sequence.
#[verifier::spinoff_prover]
#[verifier::rlimit(50)]
pub proof fn lemma_filter_all<A>(s: Seq<A>, pred: spec_fn(A) -> bool)
    requires
        forall|i: int| 0 <= i < s.len() ==> pred(#[trigger] s[i]),
    ensures
        s.filter(pred) == s,
    decreases s.len(),
{
    reveal(Seq::filter);
    if s.len() > 0 {
        lemma_filter_all(s.drop_last(), pred);
        assert(s.drop_last().filter(pred).push(s.last()) =~= s);
    }
}

/// `map_values` distributes over `push`.
pub proof fn lemma_map_values_push<A, B>(s: Seq<A>, f: spec_fn(A) -> B, x: A)
    ensures
        s.push(x).map_values(f) == s.map_values(f).push(f(x)),
{
    assert(s.push(x).map_values(f) =~= s.map_values(f).push(f(x)));
}

/// With unique conversation ids and chats, the conversation found for a
/// chat is the chat's one conversation.
pub proof fn lemma_conv_index(convs: Seq<Conversation>, i: int)
    requires
        forall|p: int, q: int| 0 <= p < q < convs.len() ==> convs[p].chat_id != convs[q].chat_id,
        0 <= i < convs.len(),
    ensures
        conv_index_of_chat(convs, convs[i].chat_id) == i,
        conv_of_chat(convs, convs[i].chat_id) == convs[i],
{
    assert(convs[i].chat_id == convs[i].chat_id);
    let c = convs[i].chat_id;
    let j = conv_index_of_chat(convs, c);
    assert(0 <= j < convs.len() && convs[j].chat_id == c);
    if i != j {
        assert(convs[i].chat_id != convs[j].chat_id || convs[j].chat_id != convs[i].chat_id);
    }
}

/// What the fanned-out receipts of a message look like: one delivered
/// receipt per receiver, no receiver twice, never the sender.
pub proof fn lemma_fanout_wf(
    parts: Seq<ChatParticipant>,
    chat_id: u64,
    sender_id: u64,
    mid: u64,
    now: i64,
)
    requires
        pairs_unique(parts),
    ensures
        ({
            let f = fanout_receipts(parts, chat_id, sender_id, mid, now);
            &&& f.len() == receivers_of(parts, chat_id, sender_id).len()
            &&& forall|i: int|
                0 <= i < f.len() ==> (#[trigger] f[i]).message_id == mid && f[i].status
                    == ReceiptStatus::Delivered && f[i].receiver_id != sender_id && f[i].created_at
                    == now && f[i].updated_at == now
            &&& forall|i: int|
                0 <= i < f.len() ==> exists|w: int|
                    0 <= w < parts.len() && (#[trigger] parts[w]).chat_id == chat_id
                        && parts[w].user_id == (#[trigger] f[i]).receiver_id
            &&& forall|i: int, j: int|
                0 <= i < j < f.len() ==> f[i].receiver_id != f[j].receiver_id
        }),
    decreases parts.len(),
{
    reveal(Seq::filter);
    let pred = |p: ChatParticipant| p.chat_id == chat_id && p.user_id != sender_id;
    let conv = |p: ChatParticipant| receipt_of(p, mid, now);
    if parts.len() == 0 {
        assert(receivers_of(parts, chat_id, sender_id).len() == 0);
    } else {
        let dl = parts.drop_last();
        let last = parts.last();
        assert(pairs_unique(dl)) by {
            assert forall|i: int, j: int| 0 <= i < j < dl.len() implies !(dl[i].chat_id
                == dl[j].chat_id && dl[i].user_id == dl[j].user_id) by {
                assert(!(parts[i].chat_id == parts[j].chat_id && parts[i].user_id
                    == parts[j].user_id));
            }
        }
        lemma_fanout_wf(dl, chat_id, sender_id, mid, now);
        let fd = fanout_receipts(dl, chat_id, sender_id, mid, now);
        let f = fanout_receipts(parts, chat_id, sender_id, mid, now);
        assert(dl.push(last) =~= parts);
        assert(parts.filter(pred) == if pred(last) {
            dl.filter(pred).push(last)
        } else {
            dl.filter(pred)
        });
        if pred(last) {
            lemma_map_values_push(dl.filter(pred), conv, last);
            assert(f == fd.push(receipt_of(last, mid, now)));
            assert forall|i: int, j: int| 0 <= i < j < f.len() implies f[i].receiver_id
                != f[j].receiver_id by {
                if j < f.len() - 1 {
                    assert(fd[i].receiver_id != fd[j].receiver_id);
                } else {
                    assert(f[i] == fd[i]);
                    let w = choose|w: int|
                        0 <= w < dl.len() && (#[trigger] dl[w]).chat_id == chat_id && dl[w].user_id
                            == fd[i].receiver_id;
                    assert(!(parts[w].chat_id == parts[parts.len() - 1].chat_id && parts[w].user_id
                        == parts[parts.len() - 1].user_id));
                    assert(f[j].receiver_id == last.user_id);
                }
            }
            assert forall|i: int| 0 <= i < f.len() implies exists|w: int|
                0 <= w < parts.len() && (#[trigger] parts[w]).chat_id == chat_id && parts[w].user_id
                    == (#[trigger] f[i]).receiver_id by {
                if i < f.len() - 1 {
                    let w = choose|w: int|
                        0 <= w < dl.len() && (#[trigger] dl[w]).chat_id == chat_id && dl[w].user_id
                            == fd[i].receiver_id;
                    assert(parts[w].chat_id == chat_id && parts[w].user_id == f[i].receiver_id);
                } else {
                    assert(parts[parts.len() - 1].chat_id == chat_id && parts[parts.len()
                        - 1].user_id == f[i].receiver_id);
                }
            }
        } else {
            assert(f == fd);
            assert forall|i: int| 0 <= i < f.len() implies exists|w: int|
                0 <= w < parts.len() && (#[trigger] parts[w]).chat_id == chat_id && parts[w].user_id
                    == (#[trigger] f[i]).receiver_id by {
                let w = choose|w: int|
                    0 <= w < dl.len() && (#[trigger] dl[w]).chat_id == chat_id && dl[w].user_id
                        == fd[i].receiver_id;
                assert(parts[w].chat_id == chat_id && parts[w].user_id == f[i].receiver_id);
            }
        }
    }
}

/// A chat's membership splits into the sender's own rows and the
/// receivers.
pub proof fn lemma_member_split(parts: Seq<ChatParticipant>, chat_id: u64, sender_id: u64)
    ensures
        chat_member_count(parts, chat_id) == receivers_of(parts, chat_id, sender_id).len()
            + parts.filter(
            |p: ChatParticipant| p.chat_id == chat_id && p.user_id == sender_id,
        ).len(),
    decreases parts.len(),
{
    reveal(Seq::filter);
    if parts.len() > 0 {
        let dl = parts.drop_last();
        lemma_member_split(dl, chat_id, sender_id);
        assert(dl.push(parts.last()) =~= parts);
    }
}

/// A participant appears in exactly one membership row of their chat.
pub proof fn lemma_sender_once(parts: Seq<ChatParticipant>, chat_id: u64, sender_id: u64)
    requires
        pairs_unique(parts),
        exists|i: int|
            0 <= i < parts.len() && (#[trigger] parts[i]).chat_id == chat_id && parts[i].user_id
                == sender_id,
    ensures
        parts.filter(|p: ChatParticipant| p.chat_id == chat_id && p.user_id == sender_id).len()
            == 1,
    decreases parts.len(),
{
    reveal(Seq::filter);
    let pred = |p: ChatParticipant| p.chat_id == chat_id && p.user_id == sender_id;
    let w = choose|i: int|
        0 <= i < parts.len() && (#[trigger] parts[i]).chat_id == chat_id && parts[i].user_id
            == sender_id;
    let dl = parts.drop_last();
    assert(pairs_unique(dl)) by {
        assert forall|i: int, j: int| 0 <= i < j < dl.len() implies !(dl[i].chat_id
            == dl[j].chat_id && dl[i].user_id == dl[j].user_id) by {
            assert(!(parts[i].chat_id == parts[j].chat_id && parts[i].user_id == parts[j].user_id));
        }
    }
    if pred(parts.last()) {
        assert forall|i: int| 0 <= i < dl.len() implies !pred(#[trigger] dl[i]) by {
            assert(!(parts[i].chat_id == parts[parts.len() - 1].chat_id && parts[i].user_id
                == parts[parts.len() - 1].user_id));
        }
        dl.lemma_all_neg_filter_empty(pred);
        assert(parts.filter(pred) == dl.filter(pred).push(parts.last()));
    } else {
        assert(w < parts.len() - 1);
        assert(dl[w] == parts[w]);
        lemma_sender_once(dl, chat_id, sender_id);
        assert(parts.filter(pred) == dl.filter(pred));
    }
}

/// Fan-out completeness: after a message is fanned out to a chat with
/// `N` membership rows, exactly `N - 1` receipts of it exist, one per
/// receiver, each delivered.
pub proof fn lemma_fanout_complete(
    pre: Store,
    post: Store,
    chat_id: u64,
    sender_id: u64,
    mid: u64,
    now: i64,
)
    requires
        pre.wf(),
        mid == pre.next_id,
        pre.some_participant_pair(chat_id, sender_id),
        post.receipts@ == pre.receipts@ + fanout_receipts(
            pre.participants@,
            chat_id,
            sender_id,
            mid,
            now,
        ),
    ensures
        receipts_for_message(post.receipts@, mid).len() + 1 == chat_member_count(
            pre.participants@,
            chat_id,
        ),
        forall|i: int|
            0 <= i < receipts_for_message(post.receipts@, mid).len() ==> (
            #[trigger] receipts_for_message(post.receipts@, mid)[i]).status
                == ReceiptStatus::Delivered,
        forall|i: int, j: int|
            0 <= i < j < receipts_for_message(post.receipts@, mid).len() ==> receipts_for_message(
                post.receipts@,
                mid,
            )[i].receiver_id != receipts_for_message(post.receipts@, mid)[j].receiver_id,
{
    let pred = |r: MessageReceipt| r.message_id == mid;
    let f = fanout_receipts(pre.participants@, chat_id, sender_id, mid, now);
    lemma_fanout_wf(pre.participants@, chat_id, sender_id, mid, now);
    assert forall|i: int| 0 <= i < pre.receipts@.len() implies !pred(
        #[trigger] pre.receipts@[i],
    ) by {
        let k = choose|k: int|
            0 <= k < pre.messages@.len() && (#[trigger] pre.messages@[k]).id
                == pre.receipts@[i].message_id && pre.messages@[k].sender_id
                != pre.receipts@[i].receiver_id;
        assert(pre.messages@[k].key_spec() < pre.next_id);
    }
    pre.receipts@.lemma_all_neg_filter_empty(pred);
    lemma_filter_all(f, pred);
    assert(post.receipts@.filter(pred) =~= f);
    lemma_member_split(pre.participants@, chat_id, sender_id);
    lemma_sender_once(pre.participants@, chat_id, sender_id);
}

impl Store {
    /// How many receivers a message sent into `chat_id` by `sender_id`
    /// would have.
    fn count_receivers(&self, chat_id: u64, sender_id: u64) -> (n: u64)
        ensures
            n as int == receivers_of(self.participants@, chat_id, sender_id).len(),
    {
        let total = self.participants.len();
        let mut n: u64 = 0;
        let mut i: usize = 0;
        while i < total
            invariant
                i <= total,
                total == self.participants@.len(),
                n as int == receivers_of(self.participants@.take(i as int), chat_id, sender_id).len(),
                n <= i,
            decreases total - i,
        {
            proof {
                let pref = self.participants@.take(i as int);
                let elem = self.participants@[i as int];
                assert(self.participants@.take(i as int + 1) =~= pref.push(elem));
                assert(receivers_of(pref.push(elem), chat_id, sender_id).len() == receivers_of(
                    pref,
                    chat_id,
                    sender_id,
                ).len() + (if elem.chat_id == chat_id && elem.user_id != sender_id {
                    1int
                } else {
                    0int
                }));
            }
            if self.participants[i].chat_id == chat_id && self.participants[i].user_id != sender_id {
                n = n + 1;
            }
            i += 1;
        }
        proof {
            assert(self.participants@.take(total as int) =~= self.participants@);
        }
        n
    }

    /// Append one delivered receipt of message `mid` per receiver.
    fn fanout_push_receipts(&mut self, chat_id: u64, sender_id: u64, mid: u64, now: i64)
        ensures
            final(self).receipts@ == old(self).receipts@ + fanout_receipts(
                old(self).participants@,
                chat_id,
                sender_id,
                mid,
                now,
            ),
            final(self).users == old(self).users,
            final(self).chats == old(self).chats,
            final(self).participants == old(self).participants,
            final(self).conversations == old(self).conversations,
            final(self).messages == old(self).messages,
            final(self).contact_groups == old(self).contact_groups,
            final(self).contact_user_links == old(self).contact_user_links,
            final(self).contacts == old(self).contacts,
            final(self).agents == old(self).agents,
            final(self).next_id == old(self).next_id,
            final(self).fault_step == old(self).fault_step,
    {
        let total = self.participants.len();
        let mut i: usize = 0;
        while i < total
            invariant
                i <= total,
                total == self.participants@.len(),
                self.participants == old(self).participants,
                self.receipts@ == old(self).receipts@ + fanout_receipts(
                    self.participants@.take(i as int),
                    chat_id,
                    sender_id,
                    mid,
                    now,
                ),
                self.users == old(self).users,
                self.chats == old(self).chats,
                self.conversations == old(self).conversations,
                self.messages == old(self).messages,
                self.contact_groups == old(self).contact_groups,
                self.contact_user_links == old(self).contact_user_links,
                self.contacts == old(self).contacts,
                self.agents == old(self).agents,
                self.next_id == old(self).next_id,
                self.fault_step == old(self).fault_step,
            decreases total - i,
        {
            proof {
                let pref = self.participants@.take(i as int);
                let elem = self.participants@[i as int];
                let conv = |p: ChatParticipant| receipt_of(p, mid, now);
                assert(self.participants@.take(i as int + 1) =~= pref.push(elem));
                if elem.chat_id == chat_id && elem.user_id != sender_id {
                    assert(receivers_of(pref.push(elem), chat_id, sender_id) == receivers_of(
                        pref,
                        chat_id,
                        sender_id,
                    ).push(elem));
                    lemma_map_values_push(receivers_of(pref, chat_id, sender_id), conv, elem);
                } else {
                    assert(receivers_of(pref.push(elem), chat_id, sender_id) == receivers_of(
                        pref,
                        chat_id,
                        sender_id,
                    ));
                }
            }
            if self.participants[i].chat_id == chat_id && self.participants[i].user_id != sender_id {
                let receiver_id = self.participants[i].user_id;
                self.receipts.push(
                    MessageReceipt {
                        message_id: mid,
                        receiver_id,
                        status: ReceiptStatus::Delivered,
                        created_at: now,
                        updated_at: now,
                    },
                );
                proof {
                    assert(self.receipts@ =~= old(self).receipts@ + fanout_receipts(
                        self.participants@.take(i as int + 1),
                        chat_id,
                        sender_id,
                        mid,
                        now,
                    ));
                }
            }
            i += 1;
        }
        proof {
            assert(self.participants@.take(total as int) =~= self.participants@);
        }
    }

    /// Bump the unread counter of every receiver in `chat_id`.
    fn bump_receiver_unreads(&mut self, chat_id: u64, sender_id: u64)
        requires
            forall|j: int|
                0 <= j < old(self).participants@.len() ==> (
                #[trigger] old(self).participants@[j]).unread_count < 0xffff_ffff_ffff_ffff,
        ensures
            final(self).participants@.len() == old(self).participants@.len(),
            forall|j: int|
                0 <= j < old(self).participants@.len() ==> final(self).participants@[j] == (if (
                #[trigger] old(self).participants@[j]).chat_id == chat_id && old(
                    self,
                ).participants@[j].user_id != sender_id {
                    bump_unread(old(self).participants@[j])
                } else {
                    old(self).participants@[j]
                }),
            final(self).users == old(self).users,
            final(self).chats == old(self).chats,
            final(self).conversations == old(self).conversations,
            final(self).messages == old(self).messages,
            final(self).receipts == old(self).receipts,
            final(self).contact_groups == old(self).contact_groups,
            final(self).contact_user_links == old(self).contact_user_links,
            final(self).contacts == old(self).contacts,
            final(self).agents == old(self).agents,
            final(self).next_id == old(self).next_id,
            final(self).fault_step == old(self).fault_step,
    {
        let total = self.participants.len();
        let mut i: usize = 0;
        while i < total
            invariant
                i <= total,
                total == self.participants@.len(),
                self.participants@.len() == old(self).participants@.len(),
                forall|j: int|
                    0 <= j < i ==> self.participants@[j] == (if (
                    #[trigger] old(self).participants@[j]).chat_id == chat_id && old(
                        self,
                    ).participants@[j].user_id != sender_id {
                        bump_unread(old(self).participants@[j])
                    } else {
                        old(self).participants@[j]
                    }),
                forall|j: int|
                    i <= j < total ==> self.participants@[j] == old(self).participants@[j],
                forall|j: int|
                    0 <= j < total ==> (#[trigger] old(self).participants@[j]).unread_count
                        < 0xffff_ffff_ffff_ffff,
                self.users == old(self).users,
                self.chats == old(self).chats,
                self.conversations == old(self).conversations,
                self.messages == old(self).messages,
                self.receipts == old(self).receipts,
                self.contact_groups == old(self).contact_groups,
                self.contact_user_links == old(self).contact_user_links,
                self.contacts == old(self).contacts,
                self.agents == old(self).agents,
                self.next_id == old(self).next_id,
                self.fault_step == old(self).fault_step,
            decreases total - i,
        {
            if self.participants[i].chat_id == chat_id && self.participants[i].user_id != sender_id {
                let p = &self.participants[i];
                let bumped = ChatParticipant {
                    chat_id: p.chat_id,
                    user_id: p.user_id,
                    role: p.role,
                    unread_count: p.unread_count + 1,
                    last_read_message_id: dup_opt_u64(&p.last_read_message_id),
                    joined_at: p.joined_at,
                };
                *vec_index_mut(&mut self.participants, i) = bumped;
            }
            i += 1;
        }
    }

    /// Send a message into a chat.
    ///
    /// One transaction: insert the message under the chat's conversation,
    /// fan a delivered receipt out to every other participant, bump each
    /// receiver's unread counter, and refresh the chat's last-message
    /// cache.  Fails with `NotFound` when the chat or its conversation is
    /// absent, with `Forbidden` when the sender is no participant of the
    /// chat, and with `DatabaseError` when an injected fault hits one of
    /// its write statements; on every failure the store is unchanged.
    pub fn send_message(
        &mut self,
        chat_id: u64,
        sender_id: u64,
        content: String,
        content_type: String,
        now: i64,
    ) -> (r: Result<Message, StoreError>)
        requires
            old(self).wf(),
            old(self).next_id < ID_LIMIT,
        ensures
            final(self).wf(),
            ({
                let pre = *old(self);
                let mid = pre.next_id;
                let steps = 2 * receivers_of(pre.participants@, chat_id, sender_id).len() as int
                    + 2;
                let ok_possible = has_key(pre.chats@, chat_id) && pre.some_participant_pair(
                    chat_id,
                    sender_id,
                ) && pre.some_conversation_of_chat(chat_id);
                match r {
                    Ok(m) => {
                        &&& ok_possible
                        &&& !fault_in(pre.fault_step, steps)
                        &&& m == (Message {
                            id: mid,
                            content: content,
                            content_type: content_type,
                            status: MessageStatus::Sent,
                            conversation_id: conv_of_chat(pre.conversations@, chat_id).id,
                            sender_id: sender_id,
                            created_at: now,
                            updated_at: now,
                        })
                        &&& final(self).messages@ == pre.messages@.push(m)
                        &&& final(self).receipts@ == pre.receipts@ + fanout_receipts(
                            pre.participants@,
                            chat_id,
                            sender_id,
                            mid,
                            now,
                        )
                        &&& final(self).participants@.len() == pre.participants@.len()
                        &&& (forall|j: int|
                            0 <= j < pre.participants@.len() ==> final(self).participants@[j] == (
                            if (#[trigger] pre.participants@[j]).chat_id == chat_id
                                && pre.participants@[j].user_id != sender_id {
                                bump_unread(pre.participants@[j])
                            } else {
                                pre.participants@[j]
                            }))
                        &&& final(self).chats@ == pre.chats@.update(
                            key_index(pre.chats@, chat_id),
                            cache_updated_chat(
                                row_of(pre.chats@, chat_id),
                                m,
                                row_of(pre.users@, sender_id).name,
                                now,
                            ),
                        )
                        &&& row_of(final(self).chats@, chat_id).last_message_id == Some(m.id)
                        &&& row_of(final(self).chats@, chat_id).last_message_content == Some(
                            m.content,
                        )
                        &&& final(self).next_id == pre.next_id + 1
                        &&& final(self).users == pre.users
                        &&& final(self).conversations == pre.conversations
                        &&& final(self).contact_groups == pre.contact_groups
                        &&& final(self).contact_user_links == pre.contact_user_links
                        &&& final(self).contacts == pre.contacts
                        &&& final(self).agents == pre.agents
                        &&& (pre.unread_consistent() ==> final(self).unread_consistent())
                    },
                    Err(e) => {
                        &&& unchanged_tables(pre, *final(self))
                        &&& (e == StoreError::NotFound || e == StoreError::Forbidden || e
                            == StoreError::DatabaseError)
                        &&& (e == StoreError::NotFound <==> !has_key(pre.chats@, chat_id) || (
                        has_key(pre.chats@, chat_id) && pre.some_participant_pair(chat_id, sender_id)
                            && !pre.some_conversation_of_chat(chat_id)))
                        &&& (e == StoreError::Forbidden <==> has_key(pre.chats@, chat_id)
                            && !pre.some_participant_pair(chat_id, sender_id))
                        &&& (e == StoreError::DatabaseError <==> ok_possible && fault_in(
                            pre.fault_step,
                            steps,
                        ))
                    },
                }
            }),
    {
        let ci = match find_key(&self.chats, chat_id) {
            Some(i) => i,
            None => {
                proof {
                    lemma_wf_unchanged(*old(self), *self);
                }
                return Err(StoreError::NotFound);
            },
        };
        let pi = match self.find_participant(chat_id, sender_id) {
            Some(i) => i,
            None => {
                proof {
                    lemma_wf_unchanged(*old(self), *self);
                }
                return Err(StoreError::Forbidden);
            },
        };
        let conv_i = match self.find_conversation_of_chat(chat_id) {
            Some(i) => i,
            None => {
                proof {
                    lemma_wf_unchanged(*old(self), *self);
                }
                return Err(StoreError::NotFound);
            },
        };
        let conv_id = self.conversations[conv_i].id;
        proof {
            lemma_conv_index(self.conversations@, conv_i as int);
        }
        let rcount = self.count_receivers(chat_id, sender_id);
        let ghost steps = 2 * receivers_of(old(self).participants@, chat_id, sender_id).len() + 2;
        let h1 = self.consume_fault(1);
        let h2 = self.consume_fault(rcount);
        let h3 = self.consume_fault(rcount);
        let h4 = self.consume_fault(1);
        proof {
            assert((h1 || h2 || h3 || h4) == fault_in(old(self).fault_step, steps as int));
        }
        if h1 || h2 || h3 || h4 {
            proof {
                lemma_wf_unchanged(*old(self), *self);
            }
            return Err(StoreError::DatabaseError);
        }
        let sender_name = match find_key(&self.users, sender_id) {
            Some(ui) => {
                proof {
                    lemma_key_index(self.users@, ui as int);
                }
                self.users[ui].name.clone()
            },
            None => {
                proof {
                    assert(has_key(self.users@, self.participants@[pi as int].user_id));
                    assert(false);
                }
                return Err(StoreError::DatabaseError);
            },
        };
        let cache_content = content.clone();
        let cache_type = content_type.clone();
        let mid = self.alloc_id();
        let msg = Message {
            id: mid,
            content,
            content_type,
            status: MessageStatus::Sent,
            conversation_id: conv_id,
            sender_id,
            created_at: now,
            updated_at: now,
        };
        let out = msg.dup();
        self.messages.push(msg);
        self.fanout_push_receipts(chat_id, sender_id, mid, now);
        proof {
            assert forall|j: int| 0 <= j < self.participants@.len() implies (
            #[trigger] self.participants@[j]).unread_count < 0xffff_ffff_ffff_ffff by {
                assert(old(self).participants@[j].unread_count <= old(self).next_id);
            }
        }
        self.bump_receiver_unreads(chat_id, sender_id);
        let crow = &self.chats[ci];
        let new_chat = Chat {
            id: chat_id,
            title: crow.title.clone(),
            chat_type: crow.chat_type,
            last_message_id: Some(mid),
            last_message_content: Some(cache_content),
            last_message_time: Some(now),
            last_message_sender: Some(sender_name),
            last_message_type: Some(cache_type),
            created_at: crow.created_at,
            updated_at: now,
        };
        *vec_index_mut(&mut self.chats, ci) = new_chat;
        proof {
            let pre = *old(self);
            let m = Message {
                id: pre.next_id,
                content: out.content,
                content_type: out.content_type,
                status: MessageStatus::Sent,
                conversation_id: conv_of_chat(pre.conversations@, chat_id).id,
                sender_id: sender_id,
                created_at: now,
                updated_at: now,
            };
            lemma_key_index(pre.chats@, ci as int);
            assert(self.chats@ == pre.chats@.update(
                key_index(pre.chats@, chat_id),
                cache_updated_chat(row_of(pre.chats@, chat_id), m, row_of(pre.users@, sender_id).name, now),
            ));
            lemma_key_index(self.chats@, ci as int);

            // well-formedness
            assert(keys_unique(self.chats@) && keys_below(self.chats@, self.next_id));
            assert(self.ids_ok());
            assert(pairs_unique(self.participants@)) by {
                assert forall|i: int, j: int|
                    0 <= i < j < self.participants@.len() implies !(self.participants@[i].chat_id
                    == self.participants@[j].chat_id && self.participants@[i].user_id
                    == self.participants@[j].user_id) by {
                    assert(!(pre.participants@[i].chat_id == pre.participants@[j].chat_id
                        && pre.participants@[i].user_id == pre.participants@[j].user_id));
                    assert(self.participants@[i].chat_id == pre.participants@[i].chat_id
                        && self.participants@[i].user_id == pre.participants@[i].user_id);
                    assert(self.participants@[j].chat_id == pre.participants@[j].chat_id
                        && self.participants@[j].user_id == pre.participants@[j].user_id);
                }
            }
            assert forall|i: int| 0 <= i < self.participants@.len() implies has_key(
                self.chats@,
                (#[trigger] self.participants@[i]).chat_id,
            ) && has_key(self.users@, self.participants@[i].user_id) by {
                assert(self.participants@[i].chat_id == pre.participants@[i].chat_id);
                assert(self.participants@[i].user_id == pre.participants@[i].user_id);
                assert(has_key(pre.chats@, pre.participants@[i].chat_id));
            }
            assert forall|i: int| 0 <= i < self.participants@.len() implies (match (
            #[trigger] self.participants@[i]).last_read_message_id {
                Some(c) => c < self.next_id,
                None => true,
            }) && self.participants@[i].unread_count <= self.next_id by {
                let po = pre.participants@[i];
                assert(po.unread_count <= pre.next_id);
                assert(match po.last_read_message_id {
                    Some(c) => c < pre.next_id,
                    None => true,
                });
                assert(self.participants@[i] == po || self.participants@[i] == bump_unread(po));
            }
            assert(self.participants_ok());
            assert(self.conversations_ok());
            assert(self.messages_ok()) by {
                assert forall|i: int| 0 <= i < self.messages@.len() implies has_key(
                    self.conversations@,
                    (#[trigger] self.messages@[i]).conversation_id,
                ) by {
                    if i < self.messages@.len() - 1 {
                        assert(self.messages@[i] == pre.messages@[i]);
                    } else {
                        assert(self.messages@[i].conversation_id
                            == pre.conversations@[conv_i as int].id);
                        assert(pre.conversations@[conv_i as int].key_spec()
                            == pre.conversations@[conv_i as int].id);
                        assert(has_key(pre.conversations@, pre.conversations@[conv_i as int].id));
                    }
                }
            }
            // receipts
            let f = fanout_receipts(pre.participants@, chat_id, sender_id, pre.next_id, now);
            lemma_fanout_wf(pre.participants@, chat_id, sender_id, pre.next_id, now);
            let n0 = pre.receipts@.len() as int;
            assert forall|i: int| 0 <= i < n0 implies (#[trigger] pre.receipts@[i]).message_id
                != pre.next_id by {
                let k = choose|k: int|
                    0 <= k < pre.messages@.len() && (#[trigger] pre.messages@[k]).id
                        == pre.receipts@[i].message_id && pre.messages@[k].sender_id
                        != pre.receipts@[i].receiver_id;
                assert(pre.messages@[k].key_spec() < pre.next_id);
            }
            assert(self.receipts_ok()) by {
                assert forall|i: int, j: int|
                    0 <= i < j < self.receipts@.len() implies !(self.receipts@[i].message_id
                    == self.receipts@[j].message_id && self.receipts@[i].receiver_id
                    == self.receipts@[j].receiver_id) by {
                    if j < n0 {
                        assert(!(pre.receipts@[i].message_id == pre.receipts@[j].message_id
                            && pre.receipts@[i].receiver_id == pre.receipts@[j].receiver_id));
                    } else if i < n0 {
                        assert(self.receipts@[i].message_id != pre.next_id);
                        assert(self.receipts@[j] == f[j - n0]);
                    } else {
                        assert(self.receipts@[i] == f[i - n0] && self.receipts@[j] == f[j - n0]);
                        assert(f[i - n0].receiver_id != f[j - n0].receiver_id);
                    }
                }
                assert forall|i: int| 0 <= i < self.receipts@.len() implies exists|k: int|
                    0 <= k < self.messages@.len() && (#[trigger] self.messages@[k]).id == (
                    #[trigger] self.receipts@[i]).message_id && self.messages@[k].sender_id
                        != self.receipts@[i].receiver_id by {
                    if i < n0 {
                        let k = choose|k: int|
                            0 <= k < pre.messages@.len() && (#[trigger] pre.messages@[k]).id
                                == pre.receipts@[i].message_id && pre.messages@[k].sender_id
                                != pre.receipts@[i].receiver_id;
                        assert(self.messages@[k].id == self.receipts@[i].message_id
                            && self.messages@[k].sender_id != self.receipts@[i].receiver_id);
                    } else {
                        let k = self.messages@.len() - 1;
                        assert(self.receipts@[i] == f[i - n0]);
                        assert(f[i - n0].message_id == pre.next_id);
                        assert(f[i - n0].receiver_id != sender_id);
                        assert(self.messages@[k].id == pre.next_id && self.messages@[k].sender_id
                            == sender_id);
                    }
                }
            }
            assert(self.contacts_ok());
            assert(self.agents_ok());
            lemma_wf_parts(*self);

            // unread consistency is preserved
            if pre.unread_consistent() {
                assert forall|j: int| 0 <= j < self.participants@.len() implies (
                #[trigger] self.participants@[j]).unread_count == unread_of(
                    *self,
                    self.participants@[j],
                ) by {
                    let po = pre.participants@[j];
                    let pn = self.participants@[j];
                    assert(pn.chat_id == po.chat_id && pn.user_id == po.user_id && cursor_of(pn)
                        == cursor_of(po));
                    let pred = unread_msg_pred(
                        self.conversations@,
                        po.chat_id,
                        po.user_id,
                        cursor_of(po),
                    );
                    assert(self.conversations@ == pre.conversations@);
                    assert(unread_of(pre, po) == pre.messages@.filter(pred).len());
                    assert(self.messages@ == pre.messages@.push(m));
                    assert(pre.messages@.push(m).filter(pred).len() == pre.messages@.filter(
                        pred,
                    ).len() + (if pred(m) {
                        1int
                    } else {
                        0int
                    }));
                    assert(cursor_of(po) < pre.next_id);
                    if po.chat_id == chat_id && po.user_id != sender_id {
                        assert(visible_in_chat(
                            self.conversations@,
                            m,
                            po.chat_id,
                            po.user_id,
                        )) by {
                            assert(pre.conversations@[conv_i as int].id == m.conversation_id
                                && pre.conversations@[conv_i as int].chat_id == chat_id);
                        }
                        assert(pred(m));
                        assert(pn == bump_unread(po));
                        assert(pn.unread_count == po.unread_count + 1);
                    } else {
                        assert(!pred(m)) by {
                            if visible_in_chat(self.conversations@, m, po.chat_id, po.user_id) {
                                let k = choose|k: int|
                                    0 <= k < self.conversations@.len() && (
                                    #[trigger] self.conversations@[k]).id == m.conversation_id
                                        && self.conversations@[k].chat_id == po.chat_id;
                                assert(pre.conversations@[k].key_spec() == pre.conversations@[
                                    conv_i as int].key_spec());
                                assert(k == conv_i as int);
                                assert(po.chat_id == chat_id);
                                assert(m.sender_id != po.user_id);
                                assert(po.user_id != sender_id);
                                assert(false);
                            }
                        }
                        assert(pn == po);
                    }
                }
            }
        }
        Ok(out)
    }
    /// Advance a participant's read cursor to `message_id` and zero
    /// their unread counter, in one update.
    ///
    /// The tracker trusts the caller's notion of "read up to here": it
    /// checks that the message exists in the chat, but not that it is
    /// the newest one visible.  Fails with `NotFound` when the
    /// membership or the message is absent.
    pub fn mark_as_read(&mut self, chat_id: u64, user_id: u64, message_id: u64) -> (r: Result<
        ChatParticipant,
        StoreError,
    >)
        requires
            old(self).wf(),
        ensures
            final(self).wf(),
            ({
                let pre = *old(self);
                match r {
                    Ok(p) => {
                        &&& pre.some_participant_pair(chat_id, user_id)
                        &&& message_in_chat(pre, message_id, chat_id)
                        &&& !fault_in(pre.fault_step, 1)
                        &&& p == mark_read_row(
                            pre.participants@[pair_index(pre.participants@, chat_id, user_id)],
                            message_id,
                        )
                        &&& final(self).participants@ == pre.participants@.update(
                            pair_index(pre.participants@, chat_id, user_id),
                            p,
                        )
                        &&& final(self).next_id == pre.next_id
                        &&& final(self).users == pre.users
                        &&& final(self).chats == pre.chats
                        &&& final(self).conversations == pre.conversations
                        &&& final(self).messages == pre.messages
                        &&& final(self).receipts == pre.receipts
                        &&& final(self).contact_groups == pre.contact_groups
                        &&& final(self).contact_user_links == pre.contact_user_links
                        &&& final(self).contacts == pre.contacts
                        &&& final(self).agents == pre.agents
                        &&& (pre.unread_consistent() && read_up_to(pre, chat_id, user_id, message_id)
                            ==> final(self).unread_consistent())
                    },
                    Err(e) => {
                        &&& unchanged_tables(pre, *final(self))
                        &&& (e == StoreError::NotFound || e == StoreError::DatabaseError)
                        &&& (e == StoreError::NotFound <==> !(pre.some_participant_pair(
                            chat_id,
                            user_id,
                        ) && message_in_chat(pre, message_id, chat_id)))
                        &&& (e == StoreError::DatabaseError <==> pre.some_participant_pair(
                            chat_id,
                            user_id,
                        ) && message_in_chat(pre, message_id, chat_id) && fault_in(
                            pre.fault_step,
                            1,
                        ))
                    },
                }
            }),
    {
        let pi = match self.find_participant(chat_id, user_id) {
            Some(i) => i,
            None => {
                proof {
                    lemma_wf_unchanged(*old(self), *self);
                }
                return Err(StoreError::NotFound);
            },
        };
        let mi = match find_key(&self.messages, message_id) {
            Some(i) => i,
            None => {
                proof {
                    lemma_wf_unchanged(*old(self), *self);
                    assert(!message_in_chat(*old(self), message_id, chat_id)) by {
                        if message_in_chat(*old(self), message_id, chat_id) {
                            let (i, k) = choose|i: int, k: int|
                                0 <= i < old(self).messages@.len() && 0 <= k < old(
                                    self,
                                ).conversations@.len() && (#[trigger] old(self).messages@[i]).id
                                    == message_id && (#[trigger] old(self).conversations@[k]).id
                                    == old(self).messages@[i].conversation_id && old(
                                    self,
                                ).conversations@[k].chat_id == chat_id;
                            assert(self.messages@[i].key_spec() == message_id);
                            assert(has_key(self.messages@, message_id));
                            assert(false);
                        }
                    }
                }
                return Err(StoreError::NotFound);
            },
        };
        let ci = match self.find_conversation_of_chat(chat_id) {
            Some(i) => i,
            None => {
                proof {
                    lemma_wf_unchanged(*old(self), *self);
                    assert(!message_in_chat(*old(self), message_id, chat_id)) by {
                        if message_in_chat(*old(self), message_id, chat_id) {
                            let (i, k) = choose|i: int, k: int|
                                0 <= i < old(self).messages@.len() && 0 <= k < old(
                                    self,
                                ).conversations@.len() && (#[trigger] old(self).messages@[i]).id
                                    == message_id && (#[trigger] old(self).conversations@[k]).id
                                    == old(self).messages@[i].conversation_id && old(
                                    self,
                                ).conversations@[k].chat_id == chat_id;
                            assert(self.conversations@[k].chat_id != chat_id);
                            assert(false);
                        }
                    }
                }
                return Err(StoreError::NotFound);
            },
        };
        if self.messages[mi].conversation_id != self.conversations[ci].id {
            proof {
                lemma_wf_unchanged(*old(self), *self);
                assert(!message_in_chat(*old(self), message_id, chat_id)) by {
                    if message_in_chat(*old(self), message_id, chat_id) {
                        let (i, k) = choose|i: int, k: int|
                            0 <= i < old(self).messages@.len() && 0 <= k < old(
                                self,
                            ).conversations@.len() && (#[trigger] old(self).messages@[i]).id
                                == message_id && (#[trigger] old(self).conversations@[k]).id == old(
                                self,
                            ).messages@[i].conversation_id && old(self).conversations@[k].chat_id
                                == chat_id;
                        assert(old(self).messages@[i].key_spec() == old(
                            self,
                        ).messages@[mi as int].key_spec());
                        assert(i == mi as int);
                        assert(k == ci as int);
                        assert(false);
                    }
                }
            }
            return Err(StoreError::NotFound);
        }
        proof {
            assert(message_in_chat(*old(self), message_id, chat_id)) by {
                let iw: int = mi as int;
                let kw: int = ci as int;
                assert(0 <= iw && iw < old(self).messages@.len());
                assert(0 <= kw && kw < old(self).conversations@.len());
                assert(old(self).messages@[iw].id == message_id);
                assert(old(self).conversations@[kw].id == old(
                    self,
                ).messages@[iw].conversation_id);
                assert(old(self).conversations@[kw].chat_id == chat_id);
            }
        }
        if self.consume_fault(1) {
            proof {
                lemma_wf_unchanged(*old(self), *self);
            }
            return Err(StoreError::DatabaseError);
        }
        let row = &self.participants[pi];
        let updated = ChatParticipant {
            chat_id: row.chat_id,
            user_id: row.user_id,
            role: row.role,
            unread_count: 0,
            last_read_message_id: Some(message_id),
            joined_at: row.joined_at,
        };
        let out = updated.dup();
        *vec_index_mut(&mut self.participants, pi) = updated;
        proof {
            let pre = *old(self);
            let iw: int = pi as int;
            assert(pre.some_participant_pair(chat_id, user_id));
            let j = pair_index(pre.participants@, chat_id, user_id);
            assert(0 <= j < pre.participants@.len() && pre.participants@[j].chat_id == chat_id
                && pre.participants@[j].user_id == user_id);
            assert(j == iw);
            assert(pre.messages@[mi as int].key_spec() < pre.next_id);
            assert forall|p: int, q: int|
                0 <= p < q < self.participants@.len() implies !(self.participants@[p].chat_id
                == self.participants@[q].chat_id && self.participants@[p].user_id
                == self.participants@[q].user_id) by {
                assert(!(pre.participants@[p].chat_id == pre.participants@[q].chat_id
                    && pre.participants@[p].user_id == pre.participants@[q].user_id));
                assert(self.participants@[p].chat_id == pre.participants@[p].chat_id
                    && self.participants@[p].user_id == pre.participants@[p].user_id);
                assert(self.participants@[q].chat_id == pre.participants@[q].chat_id
                    && self.participants@[q].user_id == pre.participants@[q].user_id);
            }
            assert forall|i: int| 0 <= i < self.participants@.len() implies has_key(
                self.chats@,
                (#[trigger] self.participants@[i]).chat_id,
            ) && has_key(self.users@, self.participants@[i].user_id) && (match self.participants@[
                i].last_read_message_id {
                Some(c) => c < self.next_id,
                None => true,
            }) && self.participants@[i].unread_count <= self.next_id by {
                assert(has_key(pre.chats@, pre.participants@[i].chat_id));
                assert(has_key(pre.users@, pre.participants@[i].user_id));
                if i != iw {
                    assert(self.participants@[i] == pre.participants@[i]);
                }
            }
            assert(self.participants_ok());
            lemma_receipts_ok_same(pre, *self);
            lemma_wf_parts(*self);
            if pre.unread_consistent() && read_up_to(pre, chat_id, user_id, message_id) {
                assert forall|i: int| 0 <= i < self.participants@.len() implies (
                #[trigger] self.participants@[i]).unread_count == unread_of(
                    *self,
                    self.participants@[i],
                ) by {
                    let po = pre.participants@[i];
                    let pn = self.participants@[i];
                    if i == iw {
                        let pred = unread_msg_pred(
                            self.conversations@,
                            pn.chat_id,
                            pn.user_id,
                            cursor_of(pn),
                        );
                        assert(cursor_of(pn) == message_id);
                        assert forall|w: int| 0 <= w < self.messages@.len() implies !pred(
                            #[trigger] self.messages@[w],
                        ) by {
                            if visible_in_chat(
                                self.conversations@,
                                self.messages@[w],
                                pn.chat_id,
                                pn.user_id,
                            ) {
                                assert(self.messages@[w] == pre.messages@[w]);
                                assert(pre.messages@[w].id <= message_id);
                            }
                        }
                        self.messages@.lemma_all_neg_filter_empty(pred);
                        assert(unread_of(*self, pn) == 0);
                    } else {
                        assert(pn == po);
                        assert(unread_of(pre, po) == unread_of(*self, pn));
                        assert(po.unread_count == unread_of(pre, po));
                    }
                }
            }
        }
        Ok(out)
    }

    /// Zero a participant's unread counter without touching the read
    /// cursor.  Fails with `NotFound` when the membership is absent.
    pub fn reset_unread_count(&mut self, chat_id: u64, user_id: u64) -> (r: Result<
        ChatParticipant,
        StoreError,
    >)
        requires
            old(self).wf(),
        ensures
            final(self).wf(),
            ({
                let pre = *old(self);
                match r {
                    Ok(p) => {
                        &&& pre.some_participant_pair(chat_id, user_id)
                        &&& !fault_in(pre.fault_step, 1)
                        &&& p == reset_unread_row(
                            pre.participants@[pair_index(pre.participants@, chat_id, user_id)],
                        )
                        &&& final(self).participants@ == pre.participants@.update(
                            pair_index(pre.participants@, chat_id, user_id),
                            p,
                        )
                        &&& final(self).next_id == pre.next_id
                        &&& final(self).users == pre.users
                        &&& final(self).chats == pre.chats
                        &&& final(self).conversations == pre.conversations
                        &&& final(self).messages == pre.messages
                        &&& final(self).receipts == pre.receipts
                        &&& final(self).contact_groups == pre.contact_groups
                        &&& final(self).contact_user_links == pre.contact_user_links
                        &&& final(self).contacts == pre.contacts
                        &&& final(self).agents == pre.agents
                    },
                    Err(e) => {
                        &&& unchanged_tables(pre, *final(self))
                        &&& (e == StoreError::NotFound || e == StoreError::DatabaseError)
                        &&& (e == StoreError::NotFound <==> !pre.some_participant_pair(
                            chat_id,
                            user_id,
                        ))
                        &&& (e == StoreError::DatabaseError <==> pre.some_participant_pair(
                            chat_id,
                            user_id,
                        ) && fault_in(pre.fault_step, 1))
                    },
                }
            }),
    {
        let pi = match self.find_participant(chat_id, user_id) {
            Some(i) => i,
            None => {
                proof {
                    lemma_wf_unchanged(*old(self), *self);
                }
                return Err(StoreError::NotFound);
            },
        };
        if self.consume_fault(1) {
            proof {
                lemma_wf_unchanged(*old(self), *self);
            }
            return Err(StoreError::DatabaseError);
        }
        let row = &self.participants[pi];
        let updated = ChatParticipant {
            chat_id: row.chat_id,
            user_id: row.user_id,
            role: row.role,
            unread_count: 0,
            last_read_message_id: dup_opt_u64(&row.last_read_message_id),
            joined_at: row.joined_at,
        };
        let out = updated.dup();
        *vec_index_mut(&mut self.participants, pi) = updated;
        proof {
            let pre = *old(self);
            let iw: int = pi as int;
            assert(pre.some_participant_pair(chat_id, user_id));
            let j = pair_index(pre.participants@, chat_id, user_id);
            assert(0 <= j < pre.participants@.len() && pre.participants@[j].chat_id == chat_id
                && pre.participants@[j].user_id == user_id);
            assert(j == iw);
            assert forall|p: int, q: int|
                0 <= p < q < self.participants@.len() implies !(self.participants@[p].chat_id
                == self.participants@[q].chat_id && self.participants@[p].user_id
                == self.participants@[q].user_id) by {
                assert(!(pre.participants@[p].chat_id == pre.participants@[q].chat_id
                    && pre.participants@[p].user_id == pre.participants@[q].user_id));
                assert(self.participants@[p].chat_id == pre.participants@[p].chat_id
                    && self.participants@[p].user_id == pre.participants@[p].user_id);
                assert(self.participants@[q].chat_id == pre.participants@[q].chat_id
                    && self.participants@[q].user_id == pre.participants@[q].user_id);
            }
            assert forall|i: int| 0 <= i < self.participants@.len() implies has_key(
                self.chats@,
                (#[trigger] self.participants@[i]).chat_id,
            ) && has_key(self.users@, self.participants@[i].user_id) && (match self.participants@[
                i].last_read_message_id {
                Some(c) => c < self.next_id,
                None => true,
            }) && self.participants@[i].unread_count <= self.next_id by {
                assert(has_key(pre.chats@, pre.participants@[i].chat_id));
                assert(has_key(pre.users@, pre.participants@[i].user_id));
                if i != iw {
                    assert(self.participants@[i] == pre.participants@[i]);
                }
            }
            assert(self.participants_ok());
            lemma_receipts_ok_same(pre, *self);
            lemma_wf_parts(*self);
        }
        Ok(out)
    }
    /// How many messages of the conversation `conv_id` (the one
    /// conversation of `chat_id`) were sent by someone else than
    /// `user_id` and are newer than `cursor`.
    fn count_unread_after(&self, conv_id: u64, chat_id: u64, user_id: u64, cursor: u64) -> (n: u64)
        requires
            forall|p: int, q: int|
                0 <= p < q < self.conversations@.len() ==> self.conversations@[p].chat_id
                    != self.conversations@[q].chat_id,
            exists|k: int|
                0 <= k < self.conversations@.len() && (#[trigger] self.conversations@[k]).id
                    == conv_id && self.conversations@[k].chat_id == chat_id,
        ensures
            n as nat == unread_count_spec(*self, chat_id, user_id, cursor),
    {
        let ghost pred = unread_msg_pred(self.conversations@, chat_id, user_id, cursor);
        let total = self.messages.len();
        let mut n: u64 = 0;
        let mut i: usize = 0;
        while i < total
            invariant
                i <= total,
                total == self.messages@.len(),
                n as nat == self.messages@.take(i as int).filter(pred).len(),
                n <= i,
                pred == unread_msg_pred(self.conversations@, chat_id, user_id, cursor),
                forall|p: int, q: int|
                    0 <= p < q < self.conversations@.len() ==> self.conversations@[p].chat_id
                        != self.conversations@[q].chat_id,
                exists|k: int|
                    0 <= k < self.conversations@.len() && (#[trigger] self.conversations@[k]).id
                        == conv_id && self.conversations@[k].chat_id == chat_id,
            decreases total - i,
        {
            let m2 = &self.messages[i];
            let hit = m2.conversation_id == conv_id && m2.sender_id != user_id && m2.id > cursor;
            proof {
                let elem = self.messages@[i as int];
                let kc = choose|k: int|
                    0 <= k < self.conversations@.len() && (#[trigger] self.conversations@[k]).id
                        == conv_id && self.conversations@[k].chat_id == chat_id;
                assert(hit == pred(elem)) by {
                    if hit {
                        assert(visible_in_chat(self.conversations@, elem, chat_id, user_id)) by {
                            assert(self.conversations@[kc].id == elem.conversation_id
                                && self.conversations@[kc].chat_id == chat_id);
                        }
                    }
                    if pred(elem) {
                        let k2 = choose|k2: int|
                            0 <= k2 < self.conversations@.len() && (
                            #[trigger] self.conversations@[k2]).id == elem.conversation_id
                                && self.conversations@[k2].chat_id == chat_id;
                        assert(k2 == kc);
                    }
                }
                let pref = self.messages@.take(i as int);
                assert(self.messages@.take(i as int + 1) =~= pref.push(elem));
                assert(pref.push(elem).filter(pred).len() == pref.filter(pred).len() + (if pred(
                    elem,
                ) {
                    1int
                } else {
                    0int
                }));
            }
            if hit {
                n = n + 1;
            }
            i += 1;
        }
        proof {
            assert(self.messages@.take(total as int) =~= self.messages@);
        }
        n
    }

    /// Update the delivery status of one receipt.
    ///
    /// When the new status is `Read`, the owning chat's participant row
    /// of the receiver (if any) is synced in the same transaction: the
    /// cursor moves to the message and the unread counter is recomputed,
    /// keeping unread consistency.  Fails with `NotFound` when the
    /// receipt is absent and with `Forbidden` on a backward `Read` to
    /// `Delivered` transition.
    pub fn update_message_receipt_status(
        &mut self,
        message_id: u64,
        receiver_id: u64,
        status: ReceiptStatus,
        now: i64,
    ) -> (r: Result<MessageReceipt, StoreError>)
        requires
            old(self).wf(),
        ensures
            final(self).wf(),
            ({
                let pre = *old(self);
                let ri = receipt_pair_index(pre.receipts@, message_id, receiver_id);
                let old_r = pre.receipts@[ri];
                let chat = chat_of_message(pre, message_id);
                let has_p = pre.some_participant_pair(chat, receiver_id);
                let backward = old_r.status == ReceiptStatus::Read && status
                    == ReceiptStatus::Delivered;
                let steps: int = if status == ReceiptStatus::Read && has_p {
                    2
                } else {
                    1
                };
                match r {
                    Ok(rc) => {
                        &&& some_receipt_pair(pre, message_id, receiver_id)
                        &&& !backward
                        &&& !fault_in(pre.fault_step, steps)
                        &&& rc == (MessageReceipt {
                            message_id: message_id,
                            receiver_id: receiver_id,
                            status: status,
                            created_at: old_r.created_at,
                            updated_at: now,
                        })
                        &&& final(self).receipts@ == pre.receipts@.update(ri, rc)
                        &&& (if status == ReceiptStatus::Read && has_p {
                            final(self).participants@ == pre.participants@.update(
                                pair_index(pre.participants@, chat, receiver_id),
                                cursor_synced_row(
                                    pre.participants@[pair_index(pre.participants@, chat, receiver_id)],
                                    message_id,
                                    unread_count_spec(pre, chat, receiver_id, message_id) as u64,
                                ),
                            )
                        } else {
                            final(self).participants@ == pre.participants@
                        })
                        &&& final(self).next_id == pre.next_id
                        &&& final(self).users == pre.users
                        &&& final(self).chats == pre.chats
                        &&& final(self).conversations == pre.conversations
                        &&& final(self).messages == pre.messages
                        &&& final(self).contact_groups == pre.contact_groups
                        &&& final(self).contact_user_links == pre.contact_user_links
                        &&& final(self).contacts == pre.contacts
                        &&& final(self).agents == pre.agents
                        &&& (pre.unread_consistent() ==> final(self).unread_consistent())
                    },
                    Err(e) => {
                        &&& unchanged_tables(pre, *final(self))
                        &&& (e == StoreError::NotFound || e == StoreError::Forbidden || e
                            == StoreError::DatabaseError)
                        &&& (e == StoreError::NotFound <==> !some_receipt_pair(
                            pre,
                            message_id,
                            receiver_id,
                        ))
                        &&& (e == StoreError::Forbidden <==> some_receipt_pair(
                            pre,
                            message_id,
                            receiver_id,
                        ) && backward)
                        &&& (e == StoreError::DatabaseError <==> some_receipt_pair(
                            pre,
                            message_id,
                            receiver_id,
                        ) && !backward && fault_in(pre.fault_step, steps))
                    },
                }
            }),
    {
        let ri = match self.find_receipt(message_id, receiver_id) {
            Some(i) => i,
            None => {
                proof {
                    lemma_wf_unchanged(*old(self), *self);
                }
                return Err(StoreError::NotFound);
            },
        };
        proof {
            let pre = *old(self);
            assert(some_receipt_pair(pre, message_id, receiver_id));
            let j = receipt_pair_index(pre.receipts@, message_id, receiver_id);
            assert(0 <= j < pre.receipts@.len() && pre.receipts@[j].message_id == message_id
                && pre.receipts@[j].receiver_id == receiver_id);
            assert(j == ri as int);
        }
        let backward = matches!(self.receipts[ri].status, ReceiptStatus::Read) && matches!(
            status,
            ReceiptStatus::Delivered,
        );
        if backward {
            proof {
                lemma_wf_unchanged(*old(self), *self);
            }
            return Err(StoreError::Forbidden);
        }
        let mi = match find_key(&self.messages, message_id) {
            Some(i) => i,
            None => {
                proof {
                    let k = choose|k: int|
                        0 <= k < self.messages@.len() && (#[trigger] self.messages@[k]).id
                            == self.receipts@[ri as int].message_id && self.messages@[k].sender_id
                            != self.receipts@[ri as int].receiver_id;
                    assert(self.messages@[k].key_spec() == message_id);
                    assert(false);
                }
                return Err(StoreError::NotFound);
            },
        };
        let conv_key = self.messages[mi].conversation_id;
        let ki = match find_key(&self.conversations, conv_key) {
            Some(i) => i,
            None => {
                proof {
                    assert(has_key(self.conversations@, self.messages@[mi as int].conversation_id));
                    assert(false);
                }
                return Err(StoreError::NotFound);
            },
        };
        let chat_id = self.conversations[ki].chat_id;
        proof {
            lemma_key_index(self.messages@, mi as int);
            lemma_key_index(self.conversations@, ki as int);
            assert(chat_of_message(*old(self), message_id) == chat_id);
        }
        let pidx_opt = self.find_participant(chat_id, receiver_id);
        let is_read = matches!(status, ReceiptStatus::Read);
        let with_participant = is_read && pidx_opt.is_some();
        let steps: u64 = if with_participant {
            2
        } else {
            1
        };
        if self.consume_fault(steps) {
            proof {
                lemma_wf_unchanged(*old(self), *self);
            }
            return Err(StoreError::DatabaseError);
        }
        let old_row = &self.receipts[ri];
        let new_r = MessageReceipt {
            message_id,
            receiver_id,
            status,
            created_at: old_row.created_at,
            updated_at: now,
        };
        let out = new_r.dup();
        *vec_index_mut(&mut self.receipts, ri) = new_r;
        if with_participant {
            let pidx = match pidx_opt {
                Some(p) => p,
                None => {
                    proof {
                        assert(false);
                    }
                    return Err(StoreError::NotFound);
                },
            };
            let cnt = self.count_unread_after(conv_key, chat_id, receiver_id, message_id);
            let prow = &self.participants[pidx];
            let updated = ChatParticipant {
                chat_id: prow.chat_id,
                user_id: prow.user_id,
                role: prow.role,
                unread_count: cnt,
                last_read_message_id: Some(message_id),
                joined_at: prow.joined_at,
            };
            *vec_index_mut(&mut self.participants, pidx) = updated;
            proof {
                let pre = *old(self);
                let iw: int = pidx as int;
                assert(pre.some_participant_pair(chat_id, receiver_id));
                let j = pair_index(pre.participants@, chat_id, receiver_id);
                assert(0 <= j < pre.participants@.len() && pre.participants@[j].chat_id == chat_id
                    && pre.participants@[j].user_id == receiver_id);
                assert(j == iw);
                assert(cnt as nat == unread_count_spec(pre, chat_id, receiver_id, message_id));
                crate::keys::lemma_keys_len_bound(pre.messages@, pre.next_id);
                assert(cnt <= pre.next_id) by {
                    assert(pre.messages@.filter(
                        unread_msg_pred(pre.conversations@, chat_id, receiver_id, message_id),
                    ).len() <= pre.messages@.len());
                }
                assert(pre.messages@[key_index(pre.messages@, message_id)].key_spec()
                    < pre.next_id);
                assert forall|p: int, q: int|
                    0 <= p < q < self.participants@.len() implies !(self.participants@[p].chat_id
                    == self.participants@[q].chat_id && self.participants@[p].user_id
                    == self.participants@[q].user_id) by {
                    assert(!(pre.participants@[p].chat_id == pre.participants@[q].chat_id
                        && pre.participants@[p].user_id == pre.participants@[q].user_id));
                    assert(self.participants@[p].chat_id == pre.participants@[p].chat_id
                        && self.participants@[p].user_id == pre.participants@[p].user_id);
                    assert(self.participants@[q].chat_id == pre.participants@[q].chat_id
                        && self.participants@[q].user_id == pre.participants@[q].user_id);
                }
                assert forall|i: int| 0 <= i < self.participants@.len() implies has_key(
                    self.chats@,
                    (#[trigger] self.participants@[i]).chat_id,
                ) && has_key(self.users@, self.participants@[i].user_id) && (match
                    self.participants@[i].last_read_message_id {
                    Some(c) => c < self.next_id,
                    None => true,
                }) && self.participants@[i].unread_count <= self.next_id by {
                    assert(has_key(pre.chats@, pre.participants@[i].chat_id));
                    assert(has_key(pre.users@, pre.participants@[i].user_id));
                    if i != iw {
                        assert(self.participants@[i] == pre.participants@[i]);
                    }
                }
                assert(self.participants_ok());
            }
        }
        proof {
            let pre = *old(self);
            assert(self.participants_ok());
            assert(self.receipts_ok()) by {
                assert forall|i: int, j: int|
                    0 <= i < j < self.receipts@.len() implies !(self.receipts@[i].message_id
                    == self.receipts@[j].message_id && self.receipts@[i].receiver_id
                    == self.receipts@[j].receiver_id) by {
                    assert(!(pre.receipts@[i].message_id == pre.receipts@[j].message_id
                        && pre.receipts@[i].receiver_id == pre.receipts@[j].receiver_id));
                    assert(self.receipts@[i].message_id == pre.receipts@[i].message_id
                        && self.receipts@[i].receiver_id == pre.receipts@[i].receiver_id);
                    assert(self.receipts@[j].message_id == pre.receipts@[j].message_id
                        && self.receipts@[j].receiver_id == pre.receipts@[j].receiver_id);
                }
                assert forall|i: int| 0 <= i < self.receipts@.len() implies exists|k: int|
                    0 <= k < self.messages@.len() && (#[trigger] self.messages@[k]).id == (
                    #[trigger] self.receipts@[i]).message_id && self.messages@[k].sender_id
                        != self.receipts@[i].receiver_id by {
                    let k = choose|k: int|
                        0 <= k < pre.messages@.len() && (#[trigger] pre.messages@[k]).id
                            == pre.receipts@[i].message_id && pre.messages@[k].sender_id
                            != pre.receipts@[i].receiver_id;
                    assert(self.messages@[k].id == self.receipts@[i].message_id
                        && self.messages@[k].sender_id != self.receipts@[i].receiver_id);
                }
            }
            lemma_wf_parts(*self);
            if pre.unread_consistent() {
                assert forall|i: int| 0 <= i < self.participants@.len() implies (
                #[trigger] self.participants@[i]).unread_count == unread_of(
                    *self,
                    self.participants@[i],
                ) by {
                    let po = pre.participants@[i];
                    let pn = self.participants@[i];
                    assert(self.messages@ == pre.messages@ && self.conversations@
                        == pre.conversations@);
                    if pn == po {
                        assert(po.unread_count == unread_of(pre, po));
                        assert(unread_of(*self, pn) == unread_of(pre, po));
                    } else {
                        assert(pn.chat_id == chat_id && pn.user_id == receiver_id
                            && pn.last_read_message_id == Some(message_id));
                        assert(pn.unread_count as nat == unread_count_spec(
                            pre,
                            chat_id,
                            receiver_id,
                            message_id,
                        ));
                        assert(unread_of(*self, pn) == unread_count_spec(
                            pre,
                            chat_id,
                            receiver_id,
                            message_id,
                        ));
                    }
                }
            }
        }
        Ok(out)
    }
    /// Create a two-person chat in one transaction: the chat row, the
    /// initiator's owner membership, the receiver's member membership,
    /// the conversation, and, when an initial message is supplied, the
    /// full message-send side effects inline.
    ///
    /// Fails with `NotFound` when either user is absent, with
    /// `AlreadyExists` when initiator and receiver are the same user
    /// (the membership pair would repeat), and with `DatabaseError` when
    /// an injected fault hits any step; on every failure the store is
    /// untouched, never left with a half-created chat.
    pub fn create_individual_chat(
        &mut self,
        initiator_id: u64,
        receiver_id: u64,
        title: String,
        initial_message: Option<String>,
        now: i64,
    ) -> (r: Result<Chat, StoreError>)
        requires
            old(self).wf(),
            old(self).next_id + 3 < ID_LIMIT,
        ensures
            final(self).wf(),
            ({
                let pre = *old(self);
                let cid = pre.next_id;
                let vid = (pre.next_id + 1) as u64;
                let mid = (pre.next_id + 2) as u64;
                let both = has_key(pre.users@, initiator_id) && has_key(pre.users@, receiver_id);
                let distinct = initiator_id != receiver_id;
                let steps: int = match initial_message {
                    Some(_) => 8,
                    None => 4,
                };
                let owner = new_participant_row(cid, initiator_id, ParticipantRole::Owner, now);
                let member = new_participant_row(cid, receiver_id, ParticipantRole::Member, now);
                match r {
                    Ok(c) => {
                        &&& both
                        &&& distinct
                        &&& !fault_in(pre.fault_step, steps)
                        &&& c.id == cid && c.title == title && c.chat_type == ChatType::Individual
                            && c.created_at == now && c.updated_at == now
                        &&& final(self).chats@ == pre.chats@.push(c)
                        &&& final(self).conversations@ == pre.conversations@.push(
                            Conversation { id: vid, chat_id: cid, created_at: now },
                        )
                        &&& final(self).users == pre.users
                        &&& final(self).contact_groups == pre.contact_groups
                        &&& final(self).contact_user_links == pre.contact_user_links
                        &&& final(self).contacts == pre.contacts
                        &&& final(self).agents == pre.agents
                        &&& (pre.unread_consistent() ==> final(self).unread_consistent())
                        &&& (match initial_message {
                            None => {
                                &&& c.last_message_id.is_none()
                                &&& c.last_message_content.is_none()
                                &&& c.last_message_time.is_none()
                                &&& c.last_message_sender.is_none()
                                &&& c.last_message_type.is_none()
                                &&& final(self).participants@ == pre.participants@.push(owner).push(
                                    member,
                                )
                                &&& final(self).messages == pre.messages
                                &&& final(self).receipts == pre.receipts
                                &&& final(self).next_id == pre.next_id + 2
                            },
                            Some(content) => {
                                &&& c.last_message_id == Some(mid)
                                &&& c.last_message_content == Some(content)
                                &&& c.last_message_time == Some(now)
                                &&& c.last_message_sender == Some(
                                    row_of(pre.users@, initiator_id).name,
                                )
                                &&& (match c.last_message_type {
                                    Some(t) => t@ == "text"@,
                                    None => false,
                                })
                                &&& final(self).messages@.len() == pre.messages@.len() + 1
                                &&& final(self).messages@ == pre.messages@.push(
                                    final(self).messages@.last(),
                                )
                                &&& final(self).messages@.last().id == mid
                                &&& final(self).messages@.last().content == content
                                &&& final(self).messages@.last().content_type@ == "text"@
                                &&& final(self).messages@.last().status == MessageStatus::Sent
                                &&& final(self).messages@.last().conversation_id == vid
                                &&& final(self).messages@.last().sender_id == initiator_id
                                &&& final(self).messages@.last().created_at == now
                                &&& final(self).messages@.last().updated_at == now
                                &&& final(self).receipts@ == pre.receipts@.push(
                                    MessageReceipt {
                                        message_id: mid,
                                        receiver_id: receiver_id,
                                        status: ReceiptStatus::Delivered,
                                        created_at: now,
                                        updated_at: now,
                                    },
                                )
                                &&& final(self).participants@ == pre.participants@.push(owner).push(
                                    bump_unread(member),
                                )
                                &&& final(self).next_id == pre.next_id + 3
                            },
                        })
                    },
                    Err(e) => {
                        &&& unchanged_tables(pre, *final(self))
                        &&& (e == StoreError::NotFound || e == StoreError::AlreadyExists || e
                            == StoreError::DatabaseError)
                        &&& (e == StoreError::NotFound <==> !both)
                        &&& (e == StoreError::AlreadyExists <==> both && !distinct)
                        &&& (e == StoreError::DatabaseError <==> both && distinct && fault_in(
                            pre.fault_step,
                            steps,
                        ))
                    },
                }
            }),
    {
        let nid0 = self.next_id;
        if find_key(&self.users, initiator_id).is_none() || find_key(
            &self.users,
            receiver_id,
        ).is_none() {
            proof {
                lemma_wf_unchanged(*old(self), *self);
            }
            return Err(StoreError::NotFound);
        }
        if initiator_id == receiver_id {
            proof {
                lemma_wf_unchanged(*old(self), *self);
            }
            return Err(StoreError::AlreadyExists);
        }
        if self.consume_fault(4) {
            proof {
                lemma_wf_unchanged(*old(self), *self);
            }
            return Err(StoreError::DatabaseError);
        }
        let cid = self.alloc_id();
        let chat = Chat {
            id: cid,
            title,
            chat_type: ChatType::Individual,
            last_message_id: None,
            last_message_content: None,
            last_message_time: None,
            last_message_sender: None,
            last_message_type: None,
            created_at: now,
            updated_at: now,
        };
        let chat_out = chat.dup();
        let ci = self.chats.len();
        self.chats.push(chat);
        self.participants.push(
            ChatParticipant {
                chat_id: cid,
                user_id: initiator_id,
                role: ParticipantRole::Owner,
                unread_count: 0,
                last_read_message_id: None,
                joined_at: now,
            },
        );
        self.participants.push(
            ChatParticipant {
                chat_id: cid,
                user_id: receiver_id,
                role: ParticipantRole::Member,
                unread_count: 0,
                last_read_message_id: None,
                joined_at: now,
            },
        );
        let vid = self.alloc_id();
        self.conversations.push(Conversation { id: vid, chat_id: cid, created_at: now });
        proof {
            let pre = *old(self);
            let base = pre.participants@;
            let owner = new_participant_row(cid, initiator_id, ParticipantRole::Owner, now);
            let member = new_participant_row(cid, receiver_id, ParticipantRole::Member, now);
            assert(self.participants@ == base.push(owner).push(member));
            assert forall|i: int| 0 <= i < base.len() implies (#[trigger] base[i]).chat_id
                != cid by {
                assert(has_key(pre.chats@, base[i].chat_id));
                let w = choose|w: int|
                    0 <= w < pre.chats@.len() && (#[trigger] pre.chats@[w].key_spec()) == base[
                    i].chat_id;
                assert(pre.chats@[w].key_spec() < pre.next_id);
            }
            assert forall|i: int| 0 <= i < pre.conversations@.len() implies (
            #[trigger] pre.conversations@[i]).chat_id != cid by {
                assert(has_key(pre.chats@, pre.conversations@[i].chat_id));
                let w = choose|w: int|
                    0 <= w < pre.chats@.len() && (#[trigger] pre.chats@[w].key_spec())
                        == pre.conversations@[i].chat_id;
                assert(pre.chats@[w].key_spec() < pre.next_id);
            }
            assert forall|i: int| 0 <= i < pre.messages@.len() implies (
            #[trigger] pre.messages@[i]).conversation_id != vid by {
                assert(has_key(pre.conversations@, pre.messages@[i].conversation_id));
                let w = choose|w: int|
                    0 <= w < pre.conversations@.len() && (
                    #[trigger] pre.conversations@[w].key_spec()) == pre.messages@[
                    i].conversation_id;
                assert(pre.conversations@[w].key_spec() < pre.next_id);
            }
            assert(pairs_unique(self.participants@)) by {
                assert forall|p: int, q: int|
                    0 <= p < q < self.participants@.len() implies !(self.participants@[p].chat_id
                    == self.participants@[q].chat_id && self.participants@[p].user_id
                    == self.participants@[q].user_id) by {
                    if q < base.len() {
                        assert(!(base[p].chat_id == base[q].chat_id && base[p].user_id
                            == base[q].user_id));
                    } else if p < base.len() {
                        assert(base[p].chat_id != cid);
                    }
                }
            }
            assert forall|i: int| 0 <= i < self.participants@.len() implies has_key(
                self.chats@,
                (#[trigger] self.participants@[i]).chat_id,
            ) && has_key(self.users@, self.participants@[i].user_id) && (match self.participants@[
                i].last_read_message_id {
                Some(c) => c < self.next_id,
                None => true,
            }) && self.participants@[i].unread_count <= self.next_id by {
                if i < base.len() {
                    assert(has_key(pre.chats@, base[i].chat_id));
                    assert(has_key(pre.users@, base[i].user_id));
                }
            }
            assert(self.participants_ok());
            assert(self.conversations_ok()) by {
                assert forall|i: int| 0 <= i < self.conversations@.len() implies has_key(
                    self.chats@,
                    (#[trigger] self.conversations@[i]).chat_id,
                ) by {
                    if i < pre.conversations@.len() {
                        assert(has_key(pre.chats@, pre.conversations@[i].chat_id));
                    }
                }
                assert forall|p: int, q: int|
                    0 <= p < q < self.conversations@.len() implies self.conversations@[p].chat_id
                    != self.conversations@[q].chat_id by {
                    if q < pre.conversations@.len() {
                        assert(pre.conversations@[p].chat_id != pre.conversations@[q].chat_id);
                    } else {
                        assert(pre.conversations@[p].chat_id != cid);
                    }
                }
            }
            assert(self.messages_ok()) by {
                assert forall|i: int| 0 <= i < self.messages@.len() implies has_key(
                    self.conversations@,
                    (#[trigger] self.messages@[i]).conversation_id,
                ) by {
                    assert(has_key(pre.conversations@, pre.messages@[i].conversation_id));
                }
            }
            lemma_receipts_ok_same(pre, *self);
            assert(self.ids_ok());
            lemma_wf_parts(*self);
            // the fresh chat is empty, and old participants keep their counts
            if pre.unread_consistent() {
                assert forall|j: int| 0 <= j < self.participants@.len() implies (
                #[trigger] self.participants@[j]).unread_count == unread_of(
                    *self,
                    self.participants@[j],
                ) by {
                    let pn = self.participants@[j];
                    let pred_new = unread_msg_pred(
                        self.conversations@,
                        pn.chat_id,
                        pn.user_id,
                        cursor_of(pn),
                    );
                    if j < base.len() {
                        let pred_old = unread_msg_pred(
                            pre.conversations@,
                            pn.chat_id,
                            pn.user_id,
                            cursor_of(pn),
                        );
                        assert forall|w: int| 0 <= w < self.messages@.len() implies (pred_new(
                            #[trigger] self.messages@[w],
                        ) == pred_old(self.messages@[w])) by {
                            let m2 = self.messages@[w];
                            if visible_in_chat(self.conversations@, m2, pn.chat_id, pn.user_id) {
                                let k = choose|k: int|
                                    0 <= k < self.conversations@.len() && (
                                    #[trigger] self.conversations@[k]).id == m2.conversation_id
                                        && self.conversations@[k].chat_id == pn.chat_id;
                                assert(m2.conversation_id != vid);
                                assert(k < pre.conversations@.len());
                                assert(visible_in_chat(
                                    pre.conversations@,
                                    m2,
                                    pn.chat_id,
                                    pn.user_id,
                                ));
                            }
                            if visible_in_chat(pre.conversations@, m2, pn.chat_id, pn.user_id) {
                                let k = choose|k: int|
                                    0 <= k < pre.conversations@.len() && (
                                    #[trigger] pre.conversations@[k]).id == m2.conversation_id
                                        && pre.conversations@[k].chat_id == pn.chat_id;
                                assert(self.conversations@[k].id == m2.conversation_id
                                    && self.conversations@[k].chat_id == pn.chat_id);
                            }
                        }
                        lemma_filter_congruent(self.messages@, pred_new, pred_old);
                        assert(unread_of(*self, pn) == unread_of(pre, pn));
                        assert(pn == base[j]);
                    } else {
                        assert(pn.chat_id == cid);
                        assert forall|w: int| 0 <= w < self.messages@.len() implies !pred_new(
                            #[trigger] self.messages@[w],
                        ) by {
                            let m2 = self.messages@[w];
                            if visible_in_chat(self.conversations@, m2, pn.chat_id, pn.user_id) {
                                let k = choose|k: int|
                                    0 <= k < self.conversations@.len() && (
                                    #[trigger] self.conversations@[k]).id == m2.conversation_id
                                        && self.conversations@[k].chat_id == pn.chat_id;
                                assert(m2.conversation_id != vid);
                                assert(k < pre.conversations@.len());
                                assert(pre.conversations@[k].chat_id != cid);
                                assert(false);
                            }
                        }
                        self.messages@.lemma_all_neg_filter_empty(pred_new);
                        assert(unread_of(*self, pn) == 0);
                    }
                }
                assert(self.unread_consistent());
            }
        }
        let content = match initial_message {
            None => {
                return Ok(chat_out);
            },
            Some(content) => content,
        };
        let ghost mid_state = *self;
        let sent = self.send_message(cid, initiator_id, content, "text".to_owned(), now);
        match sent {
            Ok(_msg) => {
                proof {
                    let pre = *old(self);
                    let base = pre.participants@;
                    let owner = new_participant_row(cid, initiator_id, ParticipantRole::Owner, now);
                    let member = new_participant_row(
                        cid,
                        receiver_id,
                        ParticipantRole::Member,
                        now,
                    );
                    let pmid = base.push(owner).push(member);
                    let rpred = |p: ChatParticipant| p.chat_id == cid && p.user_id != initiator_id;
                    assert forall|i: int| 0 <= i < base.len() implies !rpred(
                        #[trigger] base[i],
                    ) by {
                        assert(has_key(pre.chats@, base[i].chat_id));
                        let w = choose|w: int|
                            0 <= w < pre.chats@.len() && (#[trigger] pre.chats@[w].key_spec())
                                == base[i].chat_id;
                        assert(pre.chats@[w].key_spec() < pre.next_id);
                    }
                    base.lemma_all_neg_filter_empty(rpred);
                    assert(receivers_of(pmid, cid, initiator_id) =~= seq![member]) by {
                        assert(base.push(owner).filter(rpred) == base.filter(rpred));
                        assert(pmid.filter(rpred) == base.push(owner).filter(rpred).push(member));
                        assert(Seq::<ChatParticipant>::empty().push(member) =~= seq![member]);
                    }
                    assert(fanout_receipts(pmid, cid, initiator_id, mid_state.next_id, now) =~= seq![
                        receipt_of(member, mid_state.next_id, now)
                    ]);
                    assert(self.receipts@ =~= pre.receipts@.push(
                        receipt_of(member, mid_state.next_id, now),
                    ));
                    assert(mid_state.participants@ == pmid);
                    assert(!fault_in(mid_state.fault_step, 4));
                    assert(!fault_in(pre.fault_step, 8));
                    assert(self.participants@ =~= base.push(owner).push(bump_unread(member))) by {
                        assert forall|j: int| 0 <= j < pmid.len() implies self.participants@[j]
                            == (if (#[trigger] pmid[j]).chat_id == cid && pmid[j].user_id
                            != initiator_id {
                            bump_unread(pmid[j])
                        } else {
                            pmid[j]
                        }) by {
                            assert(mid_state.participants@[j] == pmid[j]);
                        }
                        assert forall|j: int| 0 <= j < base.len() implies self.participants@[j]
                            == base[j] by {
                            assert(pmid[j] == base[j]);
                            assert(!rpred(base[j]));
                        }
                        assert(self.participants@.len() == pmid.len());
                        assert(mid_state.participants@[base.len() as int] == owner);
                        assert(!(owner.chat_id == cid && owner.user_id != initiator_id));
                        assert(self.participants@[base.len() as int] == owner);
                        assert(mid_state.participants@[base.len() as int + 1] == member);
                        assert(member.chat_id == cid && member.user_id != initiator_id);
                        assert(self.participants@[base.len() as int + 1] == bump_unread(member));
                    }
                    // the chat row returned carries the cache of the sent message
                    crate::keys::lemma_key_index(mid_state.chats@, ci as int);
                    assert(self.chats@ =~= pre.chats@.push(
                        self.chats@[key_index(mid_state.chats@, cid)],
                    ));
                }
                let c2 = match find_key(&self.chats, cid) {
                    Some(k) => self.chats[k].dup(),
                    None => {
                        proof {
                            assert(has_key(self.chats@, cid));
                            assert(false);
                        }
                        return Err(StoreError::NotFound);
                    },
                };
                proof {
                    crate::keys::lemma_key_index(self.chats@, self.chats@.len() - 1);
                }
                Ok(c2)
            },
            Err(_e) => {
                proof {
                    let pre = *old(self);
                    let base = pre.participants@;
                    let owner = new_participant_row(cid, initiator_id, ParticipantRole::Owner, now);
                    let member = new_participant_row(
                        cid,
                        receiver_id,
                        ParticipantRole::Member,
                        now,
                    );
                    let pmid = base.push(owner).push(member);
                    assert(mid_state.participants@ == pmid);
                    let rpred = |p: ChatParticipant| p.chat_id == cid && p.user_id != initiator_id;
                    assert forall|i: int| 0 <= i < base.len() implies !rpred(
                        #[trigger] base[i],
                    ) by {
                        assert(has_key(pre.chats@, base[i].chat_id));
                        let w = choose|w: int|
                            0 <= w < pre.chats@.len() && (#[trigger] pre.chats@[w].key_spec())
                                == base[i].chat_id;
                        assert(pre.chats@[w].key_spec() < pre.next_id);
                    }
                    base.lemma_all_neg_filter_empty(rpred);
                    assert(receivers_of(pmid, cid, initiator_id) =~= seq![member]) by {
                        assert(base.push(owner).filter(rpred) == base.filter(rpred));
                        assert(pmid.filter(rpred) == base.push(owner).filter(rpred).push(member));
                        assert(Seq::<ChatParticipant>::empty().push(member) =~= seq![member]);
                    }
                    assert(has_key(mid_state.chats@, cid)) by {
                        assert(mid_state.chats@[pre.chats@.len() as int].key_spec() == cid);
                    }
                    assert(mid_state.some_participant_pair(cid, initiator_id)) by {
                        assert(mid_state.participants@[base.len() as int].chat_id == cid
                            && mid_state.participants@[base.len() as int].user_id == initiator_id);
                    }
                    assert(mid_state.some_conversation_of_chat(cid)) by {
                        assert(mid_state.conversations@[pre.conversations@.len() as int].chat_id
                            == cid);
                    }
                    assert(_e == StoreError::DatabaseError);
                    assert(fault_in(mid_state.fault_step, 4));
                    assert(fault_in(pre.fault_step, 8));
                }
                self.conversations.pop();
                self.participants.pop();
                self.participants.pop();
                self.chats.pop();
                self.next_id = nid0;
                proof {
                    let pre = *old(self);
                    assert(self.chats@ =~= pre.chats@);
                    assert(self.participants@ =~= pre.participants@);
                    assert(self.conversations@ =~= pre.conversations@);
                    lemma_wf_unchanged(pre, *self);
                }
                Err(StoreError::DatabaseError)
            },
        }
    }
    /// Update a message's status bookkeeping; content and structural
    /// fields stay immutable.  Fails with `NotFound` when the message is
    /// absent.
    pub fn update_message_status(&mut self, id: u64, status: MessageStatus, now: i64) -> (r: Result<
        Message,
        StoreError,
    >)
        requires
            old(self).wf(),
        ensures
            final(self).wf(),
            match r {
                Ok(m) => {
                    &&& has_key(old(self).messages@, id)
                    &&& !fault_in(old(self).fault_step, 1)
                    &&& m == (Message {
                        id: id,
                        content: row_of(old(self).messages@, id).content,
                        content_type: row_of(old(self).messages@, id).content_type,
                        status: status,
                        conversation_id: row_of(old(self).messages@, id).conversation_id,
                        sender_id: row_of(old(self).messages@, id).sender_id,
                        created_at: row_of(old(self).messages@, id).created_at,
                        updated_at: now,
                    })
                    &&& final(self).messages@ == old(self).messages@.update(
                        key_index(old(self).messages@, id),
                        m,
                    )
                    &&& final(self).next_id == old(self).next_id
                    &&& final(self).users == old(self).users
                    &&& final(self).chats == old(self).chats
                    &&& final(self).participants == old(self).participants
                    &&& final(self).conversations == old(self).conversations
                    &&& final(self).receipts == old(self).receipts
                    &&& final(self).contact_groups == old(self).contact_groups
                    &&& final(self).contact_user_links == old(self).contact_user_links
                    &&& final(self).contacts == old(self).contacts
                    &&& final(self).agents == old(self).agents
                    &&& (old(self).unread_consistent() ==> final(self).unread_consistent())
                },
                Err(e) => {
                    &&& unchanged_tables(*old(self), *final(self))
                    &&& (e == StoreError::NotFound || e == StoreError::DatabaseError)
                    &&& (e == StoreError::NotFound <==> !has_key(old(self).messages@, id))
                    &&& (e == StoreError::DatabaseError <==> has_key(old(self).messages@, id)
                        && fault_in(old(self).fault_step, 1))
                },
            },
    {
        let i = match find_key(&self.messages, id) {
            Some(i) => i,
            None => {
                proof {
                    lemma_wf_unchanged(*old(self), *self);
                }
                return Err(StoreError::NotFound);
            },
        };
        if self.consume_fault(1) {
            proof {
                lemma_wf_unchanged(*old(self), *self);
            }
            return Err(StoreError::DatabaseError);
        }
        proof {
            lemma_key_index(self.messages@, i as int);
        }
        let row = &self.messages[i];
        let updated = Message {
            id,
            content: row.content.clone(),
            content_type: row.content_type.clone(),
            status,
            conversation_id: row.conversation_id,
            sender_id: row.sender_id,
            created_at: row.created_at,
            updated_at: now,
        };
        let out = updated.dup();
        *vec_index_mut(&mut self.messages, i) = updated;
        proof {
            let pre = *old(self);
            let iw: int = i as int;
            assert(self.participants_ok());
            assert(self.messages_ok()) by {
                assert forall|k: int| 0 <= k < self.messages@.len() implies has_key(
                    self.conversations@,
                    (#[trigger] self.messages@[k]).conversation_id,
                ) by {
                    if k != iw {
                        assert(self.messages@[k] == pre.messages@[k]);
                    }
                    assert(has_key(pre.conversations@, pre.messages@[k].conversation_id));
                }
            }
            assert(self.receipts_ok()) by {
                assert forall|p: int, q: int|
                    0 <= p < q < self.receipts@.len() implies !(self.receipts@[p].message_id
                    == self.receipts@[q].message_id && self.receipts@[p].receiver_id
                    == self.receipts@[q].receiver_id) by {
                    assert(!(pre.receipts@[p].message_id == pre.receipts@[q].message_id
                        && pre.receipts@[p].receiver_id == pre.receipts@[q].receiver_id));
                }
                assert forall|k: int| 0 <= k < self.receipts@.len() implies exists|w: int|
                    0 <= w < self.messages@.len() && (#[trigger] self.messages@[w]).id == (
                    #[trigger] self.receipts@[k]).message_id && self.messages@[w].sender_id
                        != self.receipts@[k].receiver_id by {
                    let w = choose|w: int|
                        0 <= w < pre.messages@.len() && (#[trigger] pre.messages@[w]).id
                            == pre.receipts@[k].message_id && pre.messages@[w].sender_id
                            != pre.receipts@[k].receiver_id;
                    assert(self.messages@[w].id == self.receipts@[k].message_id
                        && self.messages@[w].sender_id != self.receipts@[k].receiver_id);
                }
            }
            lemma_wf_parts(*self);
            // a status flip moves no message between chats and changes no id
            if pre.unread_consistent() {
                assert forall|j: int| 0 <= j < self.participants@.len() implies (
                #[trigger] self.participants@[j]).unread_count == unread_of(
                    *self,
                    self.participants@[j],
                ) by {
                    let p = self.participants@[j];
                    let pred = unread_msg_pred(
                        self.conversations@,
                        p.chat_id,
                        p.user_id,
                        cursor_of(p),
                    );
                    assert forall|w: int| 0 <= w < self.messages@.len() implies (pred(
                        #[trigger] self.messages@[w],
                    ) == pred(pre.messages@[w])) by {
                        let a = self.messages@[w];
                        let b = pre.messages@[w];
                        assert(a.id == b.id && a.conversation_id == b.conversation_id
                            && a.sender_id == b.sender_id);
                        if visible_in_chat(self.conversations@, a, p.chat_id, p.user_id) {
                            let kc = choose|kc: int|
                                0 <= kc < self.conversations@.len() && (
                                #[trigger] self.conversations@[kc]).id == a.conversation_id
                                    && self.conversations@[kc].chat_id == p.chat_id;
                            assert(visible_in_chat(self.conversations@, b, p.chat_id, p.user_id));
                        }
                        if visible_in_chat(self.conversations@, b, p.chat_id, p.user_id) {
                            let kc = choose|kc: int|
                                0 <= kc < self.conversations@.len() && (
                                #[trigger] self.conversations@[kc]).id == b.conversation_id
                                    && self.conversations@[kc].chat_id == p.chat_id;
                            assert(visible_in_chat(self.conversations@, a, p.chat_id, p.user_id));
                        }
                    }
                    lemma_filter_congruent_pointwise(self.messages@, pre.messages@, pred);
                    assert(p == pre.participants@[j]);
                    assert(unread_of(pre, p) == pre.messages@.filter(pred).len());
                }
            }
        }
        Ok(out)
    }
}

} // verus!
