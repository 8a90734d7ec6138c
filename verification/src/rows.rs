use vstd::prelude::*;

verus! {

/// A person or synthetic (AI) identity.  Users are created directly or by
/// the contact provisioning pipeline and are never destroyed while any
/// participant row or contact still references them.
#[derive(Debug, Clone, PartialEq)]
pub struct User {
    pub id: u64,
    pub name: String,
    pub description: Option<String>,
    pub is_ai: bool,
    pub created_at: i64,
    pub updated_at: i64,
}

/// Whether a chat is a two-person ("individual") chat or a group chat.
#[derive(Debug, Clone, Copy, PartialEq, Eq, Structural)]
pub enum ChatType {
    Individual,
    Group,
}

/// A conversation container with a denormalized last-message cache.
///
/// The cache fields mirror the newest message ever committed into the
/// chat's conversation, or are all `None` while no message exists.
#[derive(Debug, Clone, PartialEq)]
pub struct Chat {
    pub id: u64,
    pub title: String,
    pub chat_type: ChatType,
    pub last_message_id: Option<u64>,
    pub last_message_content: Option<String>,
    pub last_message_time: Option<i64>,
    pub last_message_sender: Option<String>,
    pub last_message_type: Option<String>,
    pub created_at: i64,
    pub updated_at: i64,
}

/// Role of a participant inside a chat.
#[derive(Debug, Clone, Copy, PartialEq, Eq, Structural)]
pub enum ParticipantRole {
    Owner,
    Member,
}

/// Membership of a user in a chat, with that user's unread counter and
/// read cursor.  The `(chat_id, user_id)` pair is unique.
#[derive(Debug, Clone, PartialEq)]
pub struct ChatParticipant {
    pub chat_id: u64,
    pub user_id: u64,
    pub role: ParticipantRole,
    pub unread_count: u64,
    pub last_read_message_id: Option<u64>,
    pub joined_at: i64,
}

/// Auxiliary record binding a chat to its message stream.  Each chat has
/// at most one conversation today; the separate entity leaves room for
/// multi-conversation chats.
#[derive(Debug, Clone, PartialEq)]
pub struct Conversation {
    pub id: u64,
    pub chat_id: u64,
    pub created_at: i64,
}

/// Delivery state of a message.
#[derive(Debug, Clone, Copy, PartialEq, Eq, Structural)]
pub enum MessageStatus {
    Sent,
    Delivered,
    Read,
}

/// An immutable message fact.  Content and structural fields never change
/// after creation; only status bookkeeping evolves.
#[derive(Debug, Clone, PartialEq)]
pub struct Message {
    pub id: u64,
    pub content: String,
    pub content_type: String,
    pub status: MessageStatus,
    pub conversation_id: u64,
    pub sender_id: u64,
    pub created_at: i64,
    pub updated_at: i64,
}

/// Per-recipient delivery state of a receipt: `Delivered` when fanned out,
/// `Read` once the recipient read the message.  The transition is
/// monotonic; the store rejects `Read` back to `Delivered`.
#[derive(Debug, Clone, Copy, PartialEq, Eq, Structural)]
pub enum ReceiptStatus {
    Delivered,
    Read,
}

/// One row per `(message_id, receiver_id)` pair; the receiver always
/// differs from the message's sender.
#[derive(Debug, Clone, PartialEq)]
pub struct MessageReceipt {
    pub message_id: u64,
    pub receiver_id: u64,
    pub status: ReceiptStatus,
    pub created_at: i64,
    pub updated_at: i64,
}

/// A named bucket of contacts.
#[derive(Debug, Clone, PartialEq)]
pub struct ContactGroup {
    pub id: u64,
    pub name: String,
    pub description: Option<String>,
    pub created_at: i64,
    pub updated_at: i64,
}

/// Indirection between contacts and the user they point at; several
/// contacts (of different owners) may share one link.
#[derive(Debug, Clone, PartialEq)]
pub struct ContactUserLink {
    pub id: u64,
    pub user_id: u64,
    pub created_at: i64,
}

/// A named pointer, owned by `owner_id`, into a user link and a contact
/// group.
#[derive(Debug, Clone, PartialEq)]
pub struct Contact {
    pub id: u64,
    pub name: String,
    pub description: Option<String>,
    pub group_id: u64,
    pub owner_id: u64,
    pub user_link_id: u64,
    pub created_at: i64,
    pub updated_at: i64,
}

/// AI configuration, optionally linked to exactly one synthetic user.
/// Sampling parameters are kept as integers: `temperature_milli` and
/// `top_p_milli` are thousandths of the usual unit values.
#[derive(Debug, Clone, PartialEq)]
pub struct Agent {
    pub id: u64,
    pub name: String,
    pub model_name: String,
    pub system_prompt: String,
    pub temperature_milli: u32,
    pub max_tokens: Option<u32>,
    pub top_p_milli: Option<u32>,
    pub avatar_url: Option<String>,
    pub description: Option<String>,
    pub is_streaming: bool,
    pub user_id: Option<u64>,
    pub created_at: i64,
    pub updated_at: i64,
}

/// Bundled agent configuration for the contact provisioning pipeline.
#[derive(Debug, Clone, PartialEq)]
pub struct AgentParams {
    pub name: String,
    pub model_name: String,
    pub system_prompt: String,
    pub temperature_milli: u32,
    pub max_tokens: Option<u32>,
    pub top_p_milli: Option<u32>,
    pub avatar_url: Option<String>,
    pub description: Option<String>,
    pub is_streaming: bool,
}

/// Sort criterion for a user's chat listing.  `LastMessageTime` is the
/// default: newest cached message first, chats without one last.
#[derive(Debug, Clone, Copy, PartialEq, Eq, Structural)]
pub enum SortBy {
    LastMessageTime,
    CreatedAt,
    Title,
    UpdatedAt,
}

/// One entry of a user's chat listing: the chat joined with the caller's
/// own participant row.
#[derive(Debug, Clone, PartialEq)]
pub struct ChatWithDetails {
    pub chat: Chat,
    pub role: ParticipantRole,
    pub unread_count: u64,
    pub last_read_message_id: Option<u64>,
}

/// An exact copy of an optional string.
pub fn dup_opt_string(o: &Option<String>) -> (r: Option<String>)
    ensures
        r == *o,
{
    match o {
        Some(s) => Some(s.clone()),
        None => None,
    }
}

/// An exact copy of an optional integer.
pub fn dup_opt_u64(o: &Option<u64>) -> (r: Option<u64>)
    ensures
        r == *o,
{
    match o {
        Some(v) => Some(*v),
        None => None,
    }
}

/// An exact copy of an optional integer.
pub fn dup_opt_u32(o: &Option<u32>) -> (r: Option<u32>)
    ensures
        r == *o,
{
    match o {
        Some(v) => Some(*v),
        None => None,
    }
}

/// An exact copy of an optional timestamp.
pub fn dup_opt_i64(o: &Option<i64>) -> (r: Option<i64>)
    ensures
        r == *o,
{
    match o {
        Some(v) => Some(*v),
        None => None,
    }
}

impl User {
    /// An exact copy of the row.
    pub fn dup(&self) -> (r: User)
        ensures
            r == *self,
    {
        User {
            id: self.id,
            name: self.name.clone(),
            description: dup_opt_string(&self.description),
            is_ai: self.is_ai,
            created_at: self.created_at,
            updated_at: self.updated_at,
        }
    }
}

impl Chat {
    /// An exact copy of the row.
    pub fn dup(&self) -> (r: Chat)
        ensures
            r == *self,
    {
        Chat {
            id: self.id,
            title: self.title.clone(),
            chat_type: self.chat_type,
            last_message_id: dup_opt_u64(&self.last_message_id),
            last_message_content: dup_opt_string(&self.last_message_content),
            last_message_time: dup_opt_i64(&self.last_message_time),
            last_message_sender: dup_opt_string(&self.last_message_sender),
            last_message_type: dup_opt_string(&self.last_message_type),
            created_at: self.created_at,
            updated_at: self.updated_at,
        }
    }
}

impl ChatParticipant {
    /// An exact copy of the row.
    pub fn dup(&self) -> (r: ChatParticipant)
        ensures
            r == *self,
    {
        ChatParticipant {
            chat_id: self.chat_id,
            user_id: self.user_id,
            role: self.role,
            unread_count: self.unread_count,
            last_read_message_id: dup_opt_u64(&self.last_read_message_id),
            joined_at: self.joined_at,
        }
    }
}

impl Conversation {
    /// An exact copy of the row.
    pub fn dup(&self) -> (r: Conversation)
        ensures
            r == *self,
    {
        Conversation { id: self.id, chat_id: self.chat_id, created_at: self.created_at }
    }
}

impl Message {
    /// An exact copy of the row.
    pub fn dup(&self) -> (r: Message)
        ensures
            r == *self,
    {
        Message {
            id: self.id,
            content: self.content.clone(),
            content_type: self.content_type.clone(),
            status: self.status,
            conversation_id: self.conversation_id,
            sender_id: self.sender_id,
            created_at: self.created_at,
            updated_at: self.updated_at,
        }
    }
}

impl MessageReceipt {
    /// An exact copy of the row.
    pub fn dup(&self) -> (r: MessageReceipt)
        ensures
            r == *self,
    {
        MessageReceipt {
            message_id: self.message_id,
            receiver_id: self.receiver_id,
            status: self.status,
            created_at: self.created_at,
            updated_at: self.updated_at,
        }
    }
}

impl ContactGroup {
    /// An exact copy of the row.
    pub fn dup(&self) -> (r: ContactGroup)
        ensures
            r == *self,
    {
        ContactGroup {
            id: self.id,
            name: self.name.clone(),
            description: dup_opt_string(&self.description),
            created_at: self.created_at,
            updated_at: self.updated_at,
        }
    }
}

impl ContactUserLink {
    /// An exact copy of the row.
    pub fn dup(&self) -> (r: ContactUserLink)
        ensures
            r == *self,
    {
        ContactUserLink { id: self.id, user_id: self.user_id, created_at: self.created_at }
    }
}

impl Contact {
    /// An exact copy of the row.
    pub fn dup(&self) -> (r: Contact)
        ensures
            r == *self,
    {
        Contact {
            id: self.id,
            name: self.name.clone(),
            description: dup_opt_string(&self.description),
            group_id: self.group_id,
            owner_id: self.owner_id,
            user_link_id: self.user_link_id,
            created_at: self.created_at,
            updated_at: self.updated_at,
        }
    }
}

impl Agent {
    /// An exact copy of the row.
    pub fn dup(&self) -> (r: Agent)
        ensures
            r == *self,
    {
        Agent {
            id: self.id,
            name: self.name.clone(),
            model_name: self.model_name.clone(),
            system_prompt: self.system_prompt.clone(),
            temperature_milli: self.temperature_milli,
            max_tokens: dup_opt_u32(&self.max_tokens),
            top_p_milli: dup_opt_u32(&self.top_p_milli),
            avatar_url: dup_opt_string(&self.avatar_url),
            description: dup_opt_string(&self.description),
            is_streaming: self.is_streaming,
            user_id: dup_opt_u64(&self.user_id),
            created_at: self.created_at,
            updated_at: self.updated_at,
        }
    }
}

/// Application version information.
#[derive(Debug, Clone, PartialEq)]
pub struct AppVersion {
    pub version: String,
    pub build_date: String,
}

/// Request to create a contact pointing at an existing user link.
#[derive(Debug, Clone, PartialEq)]
pub struct CreateContactRequest {
    pub name: String,
    pub description: Option<String>,
    pub group_id: u64,
    pub contact_user_id: u64,
    pub user_id: u64,
}

/// Request to rename or regroup an existing contact.
#[derive(Debug, Clone, PartialEq)]
pub struct UpdateContactRequest {
    pub id: u64,
    pub name: String,
    pub description: Option<String>,
    pub group_id: u64,
}

/// Request to create a contact group.
#[derive(Debug, Clone, PartialEq)]
pub struct CreateGroupRequest {
    pub name: String,
    pub description: Option<String>,
}

/// Request to rename a contact group.
#[derive(Debug, Clone, PartialEq)]
pub struct UpdateGroupRequest {
    pub id: u64,
    pub name: String,
    pub description: Option<String>,
}

/// Request to create the conversation of a chat.
#[derive(Debug, Clone, PartialEq)]
pub struct CreateConversationRequest {
    pub chat_id: u64,
}

/// Request to send a message into a chat.
#[derive(Debug, Clone, PartialEq)]
pub struct SendMessageRequest {
    pub chat_id: u64,
    pub sender_id: u64,
    pub content: String,
    pub content_type: String,
}

/// Request to change the status of a message.
#[derive(Debug, Clone, PartialEq)]
pub struct UpdateMessageStatusRequest {
    pub id: u64,
    pub status: MessageStatus,
}

/// Request for a page of a chat's messages.
#[derive(Debug, Clone, PartialEq)]
pub struct GetMessagesRequest {
    pub chat_id: u64,
    pub page: Option<u64>,
    pub page_size: Option<u64>,
}

/// A user as handed back to callers.
#[derive(Debug, Clone, PartialEq)]
pub struct UserResponse {
    pub id: u64,
    pub name: String,
    pub description: Option<String>,
    pub is_ai: bool,
    pub created_at: i64,
    pub updated_at: i64,
}

/// A freshly created AI user as handed back to callers.
#[derive(Debug, Clone, PartialEq)]
pub struct CreateAiUserResponse {
    pub id: u64,
    pub name: String,
    pub description: Option<String>,
    pub is_ai: bool,
    pub created_at: i64,
    pub updated_at: i64,
}

/// A contact's underlying user as handed back to callers.
#[derive(Debug, Clone, PartialEq)]
pub struct ContactResponse {
    pub id: u64,
    pub name: String,
    pub description: Option<String>,
    pub is_ai: bool,
}

} // verus!
