use chatstore::error::StoreError;
use chatstore::rows::AgentParams;
use chatstore::rows::ChatType;
use chatstore::rows::MessageStatus;
use chatstore::rows::ParticipantRole;
use chatstore::rows::ReceiptStatus;
use chatstore::rows::SortBy;
use chatstore::store::Store;

fn two_users(s: &mut Store) -> (u64, u64) {
    let u1 = s.create_user("alice".to_string(), None, false, 10).unwrap();
    let u2 = s.create_user("bob".to_string(), None, false, 10).unwrap();
    (u1.id, u2.id)
}

fn agent_params(name: &str, model: &str) -> AgentParams {
    AgentParams {
        name: name.to_string(),
        model_name: model.to_string(),
        system_prompt: "be helpful".to_string(),
        temperature_milli: 700,
        max_tokens: Some(512),
        top_p_milli: Some(950),
        avatar_url: None,
        description: Some("an assistant".to_string()),
        is_streaming: false,
    }
}

#[test]
fn scenario_individual_chat_with_initial_message() {
    let mut s = Store::new();
    let (u1, u2) = two_users(&mut s);
    let chat = s
        .create_individual_chat(u1, u2, "pair".to_string(), Some("hi".to_string()), 20)
        .unwrap();
    assert_eq!(chat.chat_type, ChatType::Individual);
    assert_eq!(chat.last_message_content.as_deref(), Some("hi"));
    assert_eq!(chat.last_message_sender.as_deref(), Some("alice"));
    assert_eq!(chat.last_message_type.as_deref(), Some("text"));
    assert_eq!(chat.last_message_time, Some(20));
    assert_eq!(chat.updated_at, 20);
    let p2 = s.get_participant(chat.id, u2).unwrap();
    assert_eq!(p2.unread_count, 1);
    let mid = chat.last_message_id.unwrap();
    let receipt = s.get_receipt(mid, u2).unwrap();
    assert_eq!(receipt.status, ReceiptStatus::Delivered);
    // exactly one receipt exists for the message
    assert_eq!(s.receipts.iter().filter(|r| r.message_id == mid).count(), 1);
}

#[test]
fn scenario_mark_as_read_resets_unread() {
    let mut s = Store::new();
    let (u1, u2) = two_users(&mut s);
    let chat = s
        .create_individual_chat(u1, u2, "pair".to_string(), Some("hi".to_string()), 20)
        .unwrap();
    let mid = chat.last_message_id.unwrap();
    let p2 = s.mark_as_read(chat.id, u2, mid).unwrap();
    assert_eq!(p2.unread_count, 0);
    assert_eq!(p2.last_read_message_id, Some(mid));
    assert_eq!(s.get_participant(chat.id, u2).unwrap().unread_count, 0);
}

#[test]
fn scenario_ai_contact_agent_linked_to_user() {
    let mut s = Store::new();
    let owner = s.create_user("owner".to_string(), None, false, 5).unwrap();
    let group = s.create_contact_group("friends".to_string(), None, 5).unwrap();
    let contact = s
        .create_ai_contact(agent_params("Bot", "gpt"), None, group.id, owner.id, 6)
        .unwrap();
    assert_eq!(contact.name, "Bot");
    let link = s.get_contact_user_link(contact.user_link_id).unwrap();
    let ai_user = s.get_user(link.user_id).unwrap();
    assert!(ai_user.is_ai);
    assert_eq!(ai_user.name, "Bot");
    let agent = s.find_agent_by_user_id(ai_user.id).unwrap();
    assert_eq!(agent.user_id, Some(ai_user.id));
    assert_eq!(agent.model_name, "gpt");
}

#[test]
fn scenario_delete_last_contact_removes_shared_ai_user() {
    let mut s = Store::new();
    let owner = s.create_user("owner".to_string(), None, false, 5).unwrap();
    let group = s.create_contact_group("friends".to_string(), None, 5).unwrap();
    let contact = s
        .create_ai_contact(agent_params("Bot", "gpt"), None, group.id, owner.id, 6)
        .unwrap();
    let link = s.get_contact_user_link(contact.user_link_id).unwrap();
    let ai_user_id = link.user_id;
    s.delete_contact(contact.id, owner.id).unwrap();
    assert!(matches!(s.get_user(ai_user_id), Err(StoreError::NotFound)));
    assert!(s.find_agent_by_user_id(ai_user_id).is_none());
    assert!(matches!(
        s.get_contact_user_link(contact.user_link_id),
        Err(StoreError::NotFound)
    ));
    // the group held only this contact, so it is gone too
    assert!(matches!(s.get_contact_group(group.id), Err(StoreError::NotFound)));
}

#[test]
fn fanout_creates_one_delivered_receipt_per_receiver() {
    let mut s = Store::new();
    let u1 = s.create_user("a".to_string(), None, false, 1).unwrap().id;
    let u2 = s.create_user("b".to_string(), None, false, 1).unwrap().id;
    let u3 = s.create_user("c".to_string(), None, false, 1).unwrap().id;
    let chat = s.create_chat("team".to_string(), ChatType::Group, 2).unwrap();
    s.add_participant(chat.id, u1, ParticipantRole::Owner, 2).unwrap();
    s.add_participant(chat.id, u2, ParticipantRole::Member, 2).unwrap();
    s.add_participant(chat.id, u3, ParticipantRole::Member, 2).unwrap();
    s.create_conversation(chat.id, 2).unwrap();
    let m = s
        .send_message(chat.id, u1, "hello".to_string(), "text".to_string(), 3)
        .unwrap();
    let receipts: Vec<_> = s.receipts.iter().filter(|r| r.message_id == m.id).collect();
    assert_eq!(receipts.len(), 2);
    assert!(receipts.iter().all(|r| r.status == ReceiptStatus::Delivered));
    assert!(receipts.iter().any(|r| r.receiver_id == u2));
    assert!(receipts.iter().any(|r| r.receiver_id == u3));
    assert!(receipts.iter().all(|r| r.receiver_id != u1));
}

#[test]
fn send_message_refreshes_chat_cache() {
    let mut s = Store::new();
    let (u1, u2) = two_users(&mut s);
    let chat = s
        .create_individual_chat(u1, u2, "pair".to_string(), None, 20)
        .unwrap();
    let m = s
        .send_message(chat.id, u2, "first".to_string(), "text".to_string(), 30)
        .unwrap();
    let c = s.get_chat(chat.id).unwrap();
    assert_eq!(c.last_message_id, Some(m.id));
    assert_eq!(c.last_message_content.as_deref(), Some("first"));
    assert_eq!(c.last_message_time, Some(30));
    assert_eq!(c.last_message_sender.as_deref(), Some("bob"));
    assert_eq!(c.last_message_type.as_deref(), Some("text"));
    assert_eq!(c.updated_at, 30);
    assert_eq!(m.status, MessageStatus::Sent);
}

#[test]
fn unread_counts_track_sends_and_reads() {
    let mut s = Store::new();
    let (u1, u2) = two_users(&mut s);
    let chat = s
        .create_individual_chat(u1, u2, "pair".to_string(), None, 20)
        .unwrap();
    s.send_message(chat.id, u1, "one".to_string(), "text".to_string(), 21).unwrap();
    s.send_message(chat.id, u1, "two".to_string(), "text".to_string(), 22).unwrap();
    let m3 = s.send_message(chat.id, u1, "three".to_string(), "text".to_string(), 23).unwrap();
    assert_eq!(s.get_participant(chat.id, u2).unwrap().unread_count, 3);
    assert_eq!(s.get_participant(chat.id, u1).unwrap().unread_count, 0);
    s.mark_as_read(chat.id, u2, m3.id).unwrap();
    assert_eq!(s.get_participant(chat.id, u2).unwrap().unread_count, 0);
    let m4 = s.send_message(chat.id, u1, "four".to_string(), "text".to_string(), 24).unwrap();
    assert_eq!(s.get_participant(chat.id, u2).unwrap().unread_count, 1);
    assert_eq!(s.get_participant(chat.id, u2).unwrap().last_read_message_id, Some(m3.id));
    s.mark_as_read(chat.id, u2, m4.id).unwrap();
    assert_eq!(s.get_participant(chat.id, u2).unwrap().unread_count, 0);
}

#[test]
fn provisioning_rolls_back_at_every_injected_step() {
    for step in 1..=5u64 {
        let mut s = Store::new();
        let owner = s.create_user("owner".to_string(), None, false, 5).unwrap();
        let group = s.create_contact_group("g".to_string(), None, 5).unwrap();
        let users_before = s.users.len();
        let agents_before = s.agents.len();
        let links_before = s.contact_user_links.len();
        let contacts_before = s.contacts.len();
        let next_before = s.next_id;
        s.inject_fault(step);
        let r = s.create_ai_contact(agent_params("Bot", "gpt"), None, group.id, owner.id, 6);
        assert!(matches!(r, Err(StoreError::DatabaseError)));
        assert_eq!(s.users.len(), users_before);
        assert_eq!(s.agents.len(), agents_before);
        assert_eq!(s.contact_user_links.len(), links_before);
        assert_eq!(s.contacts.len(), contacts_before);
        assert_eq!(s.next_id, next_before);
        s.clear_fault();
        // the same call goes through once no fault is injected
        assert!(s.create_ai_contact(agent_params("Bot", "gpt"), None, group.id, owner.id, 7).is_ok());
    }
}

#[test]
fn send_message_rolls_back_on_injected_fault() {
    let mut s = Store::new();
    let (u1, u2) = two_users(&mut s);
    let chat = s
        .create_individual_chat(u1, u2, "pair".to_string(), None, 20)
        .unwrap();
    // a send into a two-person chat makes four write statements
    for step in 1..=4u64 {
        let messages_before = s.messages.len();
        let receipts_before = s.receipts.len();
        let unread_before = s.get_participant(chat.id, u2).unwrap().unread_count;
        s.inject_fault(step);
        let r = s.send_message(chat.id, u1, "x".to_string(), "text".to_string(), 30);
        assert!(matches!(r, Err(StoreError::DatabaseError)));
        assert_eq!(s.messages.len(), messages_before);
        assert_eq!(s.receipts.len(), receipts_before);
        assert_eq!(s.get_participant(chat.id, u2).unwrap().unread_count, unread_before);
        s.clear_fault();
    }
    assert!(s.send_message(chat.id, u1, "x".to_string(), "text".to_string(), 31).is_ok());
}

#[test]
fn individual_chat_rolls_back_when_inline_send_fails() {
    let mut s = Store::new();
    let (u1, u2) = two_users(&mut s);
    let chats_before = s.chats.len();
    let parts_before = s.participants.len();
    let convs_before = s.conversations.len();
    let next_before = s.next_id;
    // step 5 lands in the inline message send, after the chat rows
    s.inject_fault(5);
    let r = s.create_individual_chat(u1, u2, "pair".to_string(), Some("hi".to_string()), 20);
    assert!(matches!(r, Err(StoreError::DatabaseError)));
    assert_eq!(s.chats.len(), chats_before);
    assert_eq!(s.participants.len(), parts_before);
    assert_eq!(s.conversations.len(), convs_before);
    assert_eq!(s.messages.len(), 0);
    assert_eq!(s.receipts.len(), 0);
    assert_eq!(s.next_id, next_before);
}

#[test]
fn teardown_keeps_shared_link_and_user() {
    let mut s = Store::new();
    let owner1 = s.create_user("o1".to_string(), None, false, 1).unwrap();
    let owner2 = s.create_user("o2".to_string(), None, false, 1).unwrap();
    let target = s.create_user("shared".to_string(), None, false, 1).unwrap();
    let group = s.create_contact_group("g".to_string(), None, 1).unwrap();
    let link = s.create_contact_user_link(target.id, 2).unwrap();
    let c1 = s
        .create_contact("c1".to_string(), None, group.id, link.id, owner1.id, 2)
        .unwrap();
    let _c2 = s
        .create_contact("c2".to_string(), None, group.id, link.id, owner2.id, 2)
        .unwrap();
    s.delete_contact(c1.id, owner1.id).unwrap();
    // another contact still uses the link: link, user, and group survive
    assert!(s.get_contact_user_link(link.id).is_ok());
    assert!(s.get_user(target.id).is_ok());
    assert!(s.get_contact_group(group.id).is_ok());
}

#[test]
fn teardown_cascades_through_shared_individual_chat() {
    let mut s = Store::new();
    let owner = s.create_user("owner".to_string(), None, false, 1).unwrap();
    let group = s.create_contact_group("g".to_string(), None, 1).unwrap();
    let contact = s
        .create_ai_contact(agent_params("Bot", "gpt"), None, group.id, owner.id, 2)
        .unwrap();
    let link = s.get_contact_user_link(contact.user_link_id).unwrap();
    let bot = link.user_id;
    let chat = s
        .create_individual_chat(owner.id, bot, "bot chat".to_string(), Some("hello".to_string()), 3)
        .unwrap();
    s.send_message(chat.id, bot, "hi there".to_string(), "text".to_string(), 4).unwrap();
    assert_eq!(s.messages.len(), 2);
    assert_eq!(s.receipts.len(), 2);
    s.delete_contact(contact.id, owner.id).unwrap();
    assert!(matches!(s.get_chat(chat.id), Err(StoreError::NotFound)));
    assert_eq!(s.messages.len(), 0);
    assert_eq!(s.receipts.len(), 0);
    assert_eq!(s.conversations.len(), 0);
    assert_eq!(s.participants.len(), 0);
    assert!(matches!(s.get_user(bot), Err(StoreError::NotFound)));
    assert!(s.find_agent_by_user_id(bot).is_none());
}

#[test]
fn add_participant_rejects_duplicates_and_missing_rows() {
    let mut s = Store::new();
    let (u1, u2) = two_users(&mut s);
    let chat = s.create_chat("team".to_string(), ChatType::Group, 2).unwrap();
    s.add_participant(chat.id, u1, ParticipantRole::Owner, 2).unwrap();
    assert!(matches!(
        s.add_participant(chat.id, u1, ParticipantRole::Member, 3),
        Err(StoreError::AlreadyExists)
    ));
    assert!(matches!(
        s.add_participant(9999, u2, ParticipantRole::Member, 3),
        Err(StoreError::NotFound)
    ));
    assert!(matches!(
        s.add_participant(chat.id, 9999, ParticipantRole::Member, 3),
        Err(StoreError::NotFound)
    ));
}

#[test]
fn remove_participant_is_idempotent() {
    let mut s = Store::new();
    let (u1, _u2) = two_users(&mut s);
    let chat = s.create_chat("team".to_string(), ChatType::Group, 2).unwrap();
    s.add_participant(chat.id, u1, ParticipantRole::Owner, 2).unwrap();
    s.remove_participant(chat.id, u1).unwrap();
    assert!(s.get_participant(chat.id, u1).is_err());
    // removing again succeeds and changes nothing
    s.remove_participant(chat.id, u1).unwrap();
    assert!(s.get_participant(chat.id, u1).is_err());
}

#[test]
fn send_message_rejects_outsiders_and_missing_chats() {
    let mut s = Store::new();
    let (u1, u2) = two_users(&mut s);
    let intruder = s.create_user("eve".to_string(), None, false, 1).unwrap().id;
    let chat = s
        .create_individual_chat(u1, u2, "pair".to_string(), None, 20)
        .unwrap();
    assert!(matches!(
        s.send_message(chat.id, intruder, "hi".to_string(), "text".to_string(), 21),
        Err(StoreError::Forbidden)
    ));
    assert!(matches!(
        s.send_message(4242, u1, "hi".to_string(), "text".to_string(), 21),
        Err(StoreError::NotFound)
    ));
    // a chat without a conversation cannot take messages
    let bare = s.create_chat("bare".to_string(), ChatType::Group, 22).unwrap();
    s.add_participant(bare.id, u1, ParticipantRole::Owner, 22).unwrap();
    assert!(matches!(
        s.send_message(bare.id, u1, "hi".to_string(), "text".to_string(), 23),
        Err(StoreError::NotFound)
    ));
}

#[test]
fn receipt_status_transition_is_monotonic() {
    let mut s = Store::new();
    let (u1, u2) = two_users(&mut s);
    let chat = s
        .create_individual_chat(u1, u2, "pair".to_string(), Some("hi".to_string()), 20)
        .unwrap();
    let mid = chat.last_message_id.unwrap();
    let rc = s
        .update_message_receipt_status(mid, u2, ReceiptStatus::Read, 30)
        .unwrap();
    assert_eq!(rc.status, ReceiptStatus::Read);
    assert_eq!(rc.updated_at, 30);
    // the read sync moved the participant's cursor and counter
    let p2 = s.get_participant(chat.id, u2).unwrap();
    assert_eq!(p2.last_read_message_id, Some(mid));
    assert_eq!(p2.unread_count, 0);
    // going back from read to delivered is rejected
    assert!(matches!(
        s.update_message_receipt_status(mid, u2, ReceiptStatus::Delivered, 31),
        Err(StoreError::Forbidden)
    ));
    assert!(matches!(
        s.update_message_receipt_status(mid, 999, ReceiptStatus::Read, 31),
        Err(StoreError::NotFound)
    ));
}

#[test]
fn receipt_read_sync_recomputes_unread_over_newer_messages() {
    let mut s = Store::new();
    let (u1, u2) = two_users(&mut s);
    let chat = s
        .create_individual_chat(u1, u2, "pair".to_string(), None, 20)
        .unwrap();
    let m1 = s.send_message(chat.id, u1, "one".to_string(), "text".to_string(), 21).unwrap();
    let _m2 = s.send_message(chat.id, u1, "two".to_string(), "text".to_string(), 22).unwrap();
    let _m3 = s.send_message(chat.id, u1, "three".to_string(), "text".to_string(), 23).unwrap();
    // reading the oldest message leaves the two newer ones unread
    s.update_message_receipt_status(m1.id, u2, ReceiptStatus::Read, 24).unwrap();
    let p2 = s.get_participant(chat.id, u2).unwrap();
    assert_eq!(p2.last_read_message_id, Some(m1.id));
    assert_eq!(p2.unread_count, 2);
}

#[test]
fn reset_unread_count_keeps_cursor() {
    let mut s = Store::new();
    let (u1, u2) = two_users(&mut s);
    let chat = s
        .create_individual_chat(u1, u2, "pair".to_string(), Some("hi".to_string()), 20)
        .unwrap();
    let mid = chat.last_message_id.unwrap();
    s.mark_as_read(chat.id, u2, mid).unwrap();
    s.send_message(chat.id, u1, "more".to_string(), "text".to_string(), 21).unwrap();
    let p = s.reset_unread_count(chat.id, u2).unwrap();
    assert_eq!(p.unread_count, 0);
    assert_eq!(p.last_read_message_id, Some(mid));
}

#[test]
fn chat_listing_sorts_by_last_message_time_with_empty_chats_last() {
    let mut s = Store::new();
    let (u1, u2) = two_users(&mut s);
    let c_old = s.create_individual_chat(u1, u2, "old".to_string(), None, 10).unwrap();
    let bare = s.create_chat("bare".to_string(), ChatType::Group, 11).unwrap();
    s.add_participant(bare.id, u1, ParticipantRole::Owner, 11).unwrap();
    let c_new = s.create_chat("busy".to_string(), ChatType::Group, 12).unwrap();
    s.add_participant(c_new.id, u1, ParticipantRole::Owner, 12).unwrap();
    s.add_participant(c_new.id, u2, ParticipantRole::Member, 12).unwrap();
    s.create_conversation(c_new.id, 12).unwrap();
    s.send_message(c_old.id, u1, "a".to_string(), "text".to_string(), 100).unwrap();
    s.send_message(c_new.id, u1, "b".to_string(), "text".to_string(), 200).unwrap();
    let all = s.find_user_chats(u1, true, SortBy::LastMessageTime);
    assert_eq!(all.len(), 3);
    assert_eq!(all[0].chat.id, c_new.id);
    assert_eq!(all[1].chat.id, c_old.id);
    assert_eq!(all[2].chat.id, bare.id);
    // without empty chats the cached ones remain, newest first
    let busy_only = s.find_user_chats(u1, false, SortBy::LastMessageTime);
    assert_eq!(busy_only.len(), 2);
    assert_eq!(busy_only[0].chat.id, c_new.id);
    assert_eq!(busy_only[1].chat.id, c_old.id);
}

#[test]
fn chat_listing_sorts_by_title_created_and_updated() {
    let mut s = Store::new();
    let u1 = s.create_user("a".to_string(), None, false, 1).unwrap().id;
    let c1 = s.create_chat("pear".to_string(), ChatType::Group, 30).unwrap();
    let c2 = s.create_chat("apple".to_string(), ChatType::Group, 20).unwrap();
    let c3 = s.create_chat("apricot".to_string(), ChatType::Group, 10).unwrap();
    for c in [&c1, &c2, &c3] {
        s.add_participant(c.id, u1, ParticipantRole::Owner, 40).unwrap();
    }
    let by_title = s.find_user_chats(u1, true, SortBy::Title);
    let titles: Vec<&str> = by_title.iter().map(|e| e.chat.title.as_str()).collect();
    assert_eq!(titles, vec!["apple", "apricot", "pear"]);
    let by_created = s.find_user_chats(u1, true, SortBy::CreatedAt);
    assert_eq!(by_created[0].chat.id, c1.id);
    assert_eq!(by_created[2].chat.id, c3.id);
    s.update_chat(c3.id, "apricot".to_string(), ChatType::Group, 99).unwrap();
    let by_updated = s.find_user_chats(u1, true, SortBy::UpdatedAt);
    assert_eq!(by_updated[0].chat.id, c3.id);
}

#[test]
fn message_pages_come_newest_first() {
    let mut s = Store::new();
    let (u1, u2) = two_users(&mut s);
    let chat = s
        .create_individual_chat(u1, u2, "pair".to_string(), None, 20)
        .unwrap();
    let mut ids = Vec::new();
    for k in 0..5 {
        let m = s
            .send_message(chat.id, u1, format!("m{}", k), "text".to_string(), 30 + k)
            .unwrap();
        ids.push(m.id);
    }
    // page 1 holds the two newest messages, newest first
    let page1 = s.get_chat_messages(chat.id, 1, 2).unwrap();
    assert_eq!(page1.len(), 2);
    assert_eq!(page1[0].id, ids[4]);
    assert_eq!(page1[1].id, ids[3]);
    let page2 = s.get_chat_messages(chat.id, 2, 2).unwrap();
    assert_eq!(page2[0].id, ids[2]);
    assert_eq!(page2[1].id, ids[1]);
    // the last page reaches back to the oldest message
    let page3 = s.get_chat_messages(chat.id, 3, 2).unwrap();
    assert_eq!(page3.len(), 1);
    assert_eq!(page3[0].id, ids[0]);
    let beyond = s.get_chat_messages(chat.id, 9, 2).unwrap();
    assert!(beyond.is_empty());
    assert!(matches!(s.get_chat_messages(777, 1, 2), Err(StoreError::NotFound)));
}

#[test]
fn users_are_updated_in_place_and_protected_while_referenced() {
    let mut s = Store::new();
    let (u1, u2) = two_users(&mut s);
    let updated = s
        .update_user(u1, Some("alicia".to_string()), Some("hi".to_string()), None, 50)
        .unwrap();
    assert_eq!(updated.name, "alicia");
    assert_eq!(updated.description.as_deref(), Some("hi"));
    assert_eq!(updated.updated_at, 50);
    assert!(!updated.is_ai);
    let chat = s
        .create_individual_chat(u1, u2, "pair".to_string(), None, 51)
        .unwrap();
    // a chat member cannot be deleted
    assert!(matches!(s.delete_user(u1), Err(StoreError::DatabaseError)));
    s.remove_participant(chat.id, u1).unwrap();
    s.delete_user(u1).unwrap();
    assert!(matches!(s.get_user(u1), Err(StoreError::NotFound)));
    assert!(matches!(s.update_user(u1, None, None, None, 52), Err(StoreError::NotFound)));
}

#[test]
fn create_ai_user_flags_the_user() {
    let mut s = Store::new();
    let u = s.create_ai_user("Robo".to_string(), Some("synthetic".to_string()), 7).unwrap();
    assert!(u.is_ai);
    assert_eq!(s.get_user(u.id).unwrap().name, "Robo");
}

#[test]
fn conversation_is_unique_per_chat() {
    let mut s = Store::new();
    let chat = s.create_chat("c".to_string(), ChatType::Group, 1).unwrap();
    s.create_conversation(chat.id, 1).unwrap();
    assert!(matches!(s.create_conversation(chat.id, 2), Err(StoreError::AlreadyExists)));
    assert!(matches!(s.create_conversation(31337, 2), Err(StoreError::NotFound)));
}

#[test]
fn self_chat_is_rejected() {
    let mut s = Store::new();
    let (u1, _u2) = two_users(&mut s);
    assert!(matches!(
        s.create_individual_chat(u1, u1, "me".to_string(), None, 9),
        Err(StoreError::AlreadyExists)
    ));
    assert!(matches!(
        s.create_individual_chat(u1, 424242, "x".to_string(), None, 9),
        Err(StoreError::NotFound)
    ));
}

#[test]
fn empty_store_lists_nothing() {
    let s = Store::new();
    assert!(s.find_user_chats(1, true, SortBy::LastMessageTime).is_empty());
    assert_eq!(s.users.len(), 0);
    assert_eq!(s.next_id, 1);
}

#[test]
fn contact_and_group_updates_keep_links() {
    let mut s = Store::new();
    let owner = s.create_user("o".to_string(), None, false, 1).unwrap();
    let target = s.create_user("t".to_string(), None, false, 1).unwrap();
    let g1 = s.create_contact_group("g1".to_string(), None, 1).unwrap();
    let g2 = s.create_contact_group("g2".to_string(), None, 1).unwrap();
    let link = s.create_contact_user_link(target.id, 2).unwrap();
    let c = s
        .create_contact("t".to_string(), None, g1.id, link.id, owner.id, 2)
        .unwrap();
    let c2 = s
        .update_contact(c.id, "tess".to_string(), Some("friend".to_string()), g2.id, 3)
        .unwrap();
    assert_eq!(c2.name, "tess");
    assert_eq!(c2.group_id, g2.id);
    assert_eq!(c2.user_link_id, link.id);
    assert_eq!(c2.owner_id, owner.id);
    assert_eq!(c2.updated_at, 3);
    let g1b = s.update_contact_group(g1.id, "old friends".to_string(), None, 4).unwrap();
    assert_eq!(g1b.name, "old friends");
    assert!(matches!(
        s.update_contact(c.id, "x".to_string(), None, 777, 5),
        Err(StoreError::NotFound)
    ));
}

#[test]
fn groups_and_links_are_protected_while_referenced() {
    let mut s = Store::new();
    let owner = s.create_user("o".to_string(), None, false, 1).unwrap();
    let target = s.create_user("t".to_string(), None, false, 1).unwrap();
    let g = s.create_contact_group("g".to_string(), None, 1).unwrap();
    let link = s.create_contact_user_link(target.id, 2).unwrap();
    let c = s
        .create_contact("t".to_string(), None, g.id, link.id, owner.id, 2)
        .unwrap();
    assert!(matches!(s.delete_contact_group(g.id), Err(StoreError::DatabaseError)));
    assert!(matches!(s.delete_contact_user_link(link.id), Err(StoreError::DatabaseError)));
    s.delete_contact(c.id, owner.id).unwrap();
    // the teardown already removed the now-orphaned group and link
    assert!(matches!(s.delete_contact_group(g.id), Err(StoreError::NotFound)));
    assert!(matches!(s.delete_contact_user_link(link.id), Err(StoreError::NotFound)));
}

#[test]
fn agents_can_be_created_and_deleted_directly() {
    let mut s = Store::new();
    let u = s.create_user("u".to_string(), None, true, 1).unwrap();
    let a = s.create_agent(agent_params("Solo", "tiny"), Some(u.id), 2).unwrap();
    assert_eq!(a.user_id, Some(u.id));
    assert_eq!(s.get_agent(a.id).unwrap().model_name, "tiny");
    assert!(matches!(
        s.create_agent(agent_params("Bad", "tiny"), Some(404), 2),
        Err(StoreError::NotFound)
    ));
    s.delete_agent(a.id).unwrap();
    assert!(matches!(s.get_agent(a.id), Err(StoreError::NotFound)));
    assert!(matches!(s.delete_agent(a.id), Err(StoreError::NotFound)));
}

#[test]
fn message_status_bookkeeping_changes_only_status() {
    let mut s = Store::new();
    let (u1, u2) = two_users(&mut s);
    let chat = s
        .create_individual_chat(u1, u2, "pair".to_string(), Some("hi".to_string()), 20)
        .unwrap();
    let mid = chat.last_message_id.unwrap();
    let m = s.update_message_status(mid, MessageStatus::Delivered, 25).unwrap();
    assert_eq!(m.status, MessageStatus::Delivered);
    assert_eq!(m.content, "hi");
    assert_eq!(m.updated_at, 25);
    assert_eq!(m.created_at, 20);
    assert!(matches!(
        s.update_message_status(999, MessageStatus::Read, 25),
        Err(StoreError::NotFound)
    ));
}

#[test]
fn conversation_and_owner_queries_project_the_tables() {
    let mut s = Store::new();
    let (u1, u2) = two_users(&mut s);
    let chat = s
        .create_individual_chat(u1, u2, "pair".to_string(), None, 20)
        .unwrap();
    let conv = s.get_conversation_by_chat(chat.id).unwrap();
    assert_eq!(conv.chat_id, chat.id);
    assert!(matches!(s.get_conversation_by_chat(999), Err(StoreError::NotFound)));
    let g = s.create_contact_group("g".to_string(), None, 1).unwrap();
    let link = s.create_contact_user_link(u2, 2).unwrap();
    s.create_contact("b1".to_string(), None, g.id, link.id, u1, 2).unwrap();
    s.create_contact("b2".to_string(), None, g.id, link.id, u1, 2).unwrap();
    let owned = s.find_contacts_by_owner(u1);
    assert_eq!(owned.len(), 2);
    assert!(owned.iter().all(|c| c.owner_id == u1));
    assert!(s.find_contacts_by_owner(u2).is_empty());
}

#[test]
fn default_user_is_created_once_and_reused() {
    let mut s = Store::new();
    let d1 = s.get_or_create_default_user(9).unwrap();
    assert!(!d1.is_ai);
    let d2 = s.get_or_create_default_user(10).unwrap();
    assert_eq!(d1.id, d2.id);
    assert_eq!(s.users.len(), 1);
}

#[test]
fn agents_can_be_reconfigured() {
    let mut s = Store::new();
    let u = s.create_user("u".to_string(), None, true, 1).unwrap();
    let a = s.create_agent(agent_params("Solo", "tiny"), None, 2).unwrap();
    assert_eq!(a.user_id, None);
    let mut p = agent_params("Solo", "large");
    p.temperature_milli = 300;
    let a2 = s.update_agent(a.id, p, Some(u.id), 3).unwrap();
    assert_eq!(a2.model_name, "large");
    assert_eq!(a2.temperature_milli, 300);
    assert_eq!(a2.user_id, Some(u.id));
    assert_eq!(a2.created_at, a.created_at);
    assert_eq!(a2.updated_at, 3);
    assert!(matches!(
        s.update_agent(a.id, agent_params("Solo", "x"), Some(404), 4),
        Err(StoreError::NotFound)
    ));
}
