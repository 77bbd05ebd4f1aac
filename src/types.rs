//! The records the service stores.
use vstd::prelude::*;
use crate::user::UserId;

verus! {

/// The identities of a list of users.
pub open spec fn ids_view(v: Seq<UserId>) -> Seq<Seq<u8>> {
    v.map_values(|u: UserId| u@)
}

pub fn copy_ids(v: &Vec<UserId>) -> (r: Vec<UserId>)
    ensures
        ids_view(r@) == ids_view(v@),
{
    let mut r: Vec<UserId> = Vec::new();
    let mut i: usize = 0;
    while i < v.len()
        invariant
            i <= v@.len(),
            r@.len() == i,
            forall|j: int| 0 <= j < i ==> #[trigger] r@[j]@ == v@[j]@,
        decreases v@.len() - i,
    {
        r.push(v[i].copy());
        i = i + 1;
    }
    assert(ids_view(r@) =~= ids_view(v@));
    r
}

pub fn copy_strings(v: &Vec<String>) -> (r: Vec<String>)
    ensures
        r.deep_view() == v.deep_view(),
{
    let r = v.clone();
    assert(r.deep_view() =~= v.deep_view());
    r
}

/// An entry of a user's to-do list.
#[derive(Clone, Debug)]
pub struct Todo {
    pub id: u64,
    pub content: String,
    pub completed: bool,
}

impl Todo {
    pub open spec fn same(&self, o: Todo) -> bool {
        self.id == o.id && self.content@ == o.content@ && self.completed == o.completed
    }

    pub fn copy(&self) -> (r: Todo)
        ensures
            r.same(*self),
    {
        Todo { id: self.id, content: self.content.clone(), completed: self.completed }
    }
}

/// Whether a post was written fresh or reshares another one.
#[derive(Clone, Debug)]
pub enum PostType {
    Original,
    Reshare { original_post_id: u64, original_author: UserId },
}

impl PostType {
    pub open spec fn same(&self, o: PostType) -> bool {
        match (*self, o) {
            (PostType::Original, PostType::Original) => true,
            (
                PostType::Reshare { original_post_id: a, original_author: b },
                PostType::Reshare { original_post_id: c, original_author: d },
            ) => a == c && b@ == d@,
            _ => false,
        }
    }

    pub fn copy(&self) -> (r: PostType)
        ensures
            r.same(*self),
    {
        match self {
            PostType::Original => PostType::Original,
            PostType::Reshare { original_post_id, original_author } => PostType::Reshare {
                original_post_id: *original_post_id,
                original_author: original_author.copy(),
            },
        }
    }
}

#[derive(Clone, Debug)]
pub struct Post {
    pub id: u64,
    pub author: UserId,
    pub content: String,
    pub created_at: u64,
    pub likes: Vec<UserId>,
    pub comments: Vec<u64>,
    pub hashtags: Vec<String>,
    pub post_type: PostType,
    pub reshare_count: u64,
}

impl Post {
    pub open spec fn same(&self, o: Post) -> bool {
        &&& self.id == o.id
        &&& self.author@ == o.author@
        &&& self.content@ == o.content@
        &&& self.created_at == o.created_at
        &&& ids_view(self.likes@) == ids_view(o.likes@)
        &&& self.comments@ == o.comments@
        &&& self.hashtags.deep_view() == o.hashtags.deep_view()
        &&& self.post_type.same(o.post_type)
        &&& self.reshare_count == o.reshare_count
    }

    pub fn copy(&self) -> (r: Post)
        ensures
            r.same(*self),
    {
        let comments = self.comments.clone();
        assert(comments@ =~= self.comments@);
        Post {
            id: self.id,
            author: self.author.copy(),
            content: self.content.clone(),
            created_at: self.created_at,
            likes: copy_ids(&self.likes),
            comments,
            hashtags: copy_strings(&self.hashtags),
            post_type: self.post_type.copy(),
            reshare_count: self.reshare_count,
        }
    }
}

#[derive(Clone, Debug)]
pub struct Comment {
    pub id: u64,
    pub post_id: u64,
    pub author: UserId,
    pub content: String,
    pub created_at: u64,
}

impl Comment {
    pub open spec fn same(&self, o: Comment) -> bool {
        self.id == o.id && self.post_id == o.post_id && self.author@ == o.author@ && self.content@ == o.content@
            && self.created_at == o.created_at
    }

    pub fn copy(&self) -> (r: Comment)
        ensures
            r.same(*self),
    {
        Comment {
            id: self.id,
            post_id: self.post_id,
            author: self.author.copy(),
            content: self.content.clone(),
            created_at: self.created_at,
        }
    }
}

#[derive(Clone, Debug)]
pub struct UserProfile {
    pub id: UserId,
    pub username: String,
    pub bio: Vec<String>,
    pub avatar_url: Vec<String>,
    pub followers_count: u64,
    pub following_count: u64,
    pub created_at: u64,
}

impl UserProfile {
    pub open spec fn same(&self, o: UserProfile) -> bool {
        &&& self.id@ == o.id@
        &&& self.username@ == o.username@
        &&& self.bio.deep_view() == o.bio.deep_view()
        &&& self.avatar_url.deep_view() == o.avatar_url.deep_view()
        &&& self.followers_count == o.followers_count
        &&& self.following_count == o.following_count
        &&& self.created_at == o.created_at
    }

    pub fn copy(&self) -> (r: UserProfile)
        ensures
            r.same(*self),
    {
        UserProfile {
            id: self.id.copy(),
            username: self.username.clone(),
            bio: copy_strings(&self.bio),
            avatar_url: copy_strings(&self.avatar_url),
            followers_count: self.followers_count,
            following_count: self.following_count,
            created_at: self.created_at,
        }
    }
}

#[derive(Clone, Debug)]
pub enum NotificationType {
    Follow { user_id: UserId },
    Like { post_id: u64, user_id: UserId },
    Comment { post_id: u64, user_id: UserId, comment_id: u64 },
    Message { user_id: UserId, message_id: u64 },
    Mention { post_id: u64, user_id: UserId },
    Reshare { post_id: u64, user_id: UserId },
}

impl NotificationType {
    pub open spec fn same(&self, o: NotificationType) -> bool {
        match (*self, o) {
            (NotificationType::Follow { user_id: a }, NotificationType::Follow { user_id: b }) => a@ == b@,
            (
                NotificationType::Like { post_id: p, user_id: a },
                NotificationType::Like { post_id: q, user_id: b },
            ) => p == q && a@ == b@,
            (
                NotificationType::Comment { post_id: p, user_id: a, comment_id: c },
                NotificationType::Comment { post_id: q, user_id: b, comment_id: d },
            ) => p == q && a@ == b@ && c == d,
            (
                NotificationType::Message { user_id: a, message_id: c },
                NotificationType::Message { user_id: b, message_id: d },
            ) => a@ == b@ && c == d,
            (
                NotificationType::Mention { post_id: p, user_id: a },
                NotificationType::Mention { post_id: q, user_id: b },
            ) => p == q && a@ == b@,
            (
                NotificationType::Reshare { post_id: p, user_id: a },
                NotificationType::Reshare { post_id: q, user_id: b },
            ) => p == q && a@ == b@,
            _ => false,
        }
    }

    pub fn copy(&self) -> (r: NotificationType)
        ensures
            r.same(*self),
    {
        match self {
            NotificationType::Follow { user_id } => NotificationType::Follow { user_id: user_id.copy() },
            NotificationType::Like { post_id, user_id } => NotificationType::Like {
                post_id: *post_id,
                user_id: user_id.copy(),
            },
            NotificationType::Comment { post_id, user_id, comment_id } => NotificationType::Comment {
                post_id: *post_id,
                user_id: user_id.copy(),
                comment_id: *comment_id,
            },
            NotificationType::Message { user_id, message_id } => NotificationType::Message {
                user_id: user_id.copy(),
                message_id: *message_id,
            },
            NotificationType::Mention { post_id, user_id } => NotificationType::Mention {
                post_id: *post_id,
                user_id: user_id.copy(),
            },
            NotificationType::Reshare { post_id, user_id } => NotificationType::Reshare {
                post_id: *post_id,
                user_id: user_id.copy(),
            },
        }
    }
}

#[derive(Clone, Debug)]
pub struct Notification {
    pub id: u64,
    pub recipient: UserId,
    pub notification_type: NotificationType,
    pub created_at: u64,
    pub read: bool,
}

impl Notification {
    pub open spec fn same(&self, o: Notification) -> bool {
        self.id == o.id && self.recipient@ == o.recipient@ && self.notification_type.same(o.notification_type)
            && self.created_at == o.created_at && self.read == o.read
    }

    pub fn copy(&self) -> (r: Notification)
        ensures
            r.same(*self),
    {
        Notification {
            id: self.id,
            recipient: self.recipient.copy(),
            notification_type: self.notification_type.copy(),
            created_at: self.created_at,
            read: self.read,
        }
    }
}

#[derive(Clone, Debug)]
pub struct Message {
    pub id: u64,
    pub from: UserId,
    pub to: UserId,
    pub content: String,
    pub created_at: u64,
    pub read: bool,
}

impl Message {
    pub open spec fn same(&self, o: Message) -> bool {
        self.id == o.id && self.from@ == o.from@ && self.to@ == o.to@ && self.content@ == o.content@
            && self.created_at == o.created_at && self.read == o.read
    }

    pub fn copy(&self) -> (r: Message)
        ensures
            r.same(*self),
    {
        Message {
            id: self.id,
            from: self.from.copy(),
            to: self.to.copy(),
            content: self.content.clone(),
            created_at: self.created_at,
            read: self.read,
        }
    }
}

#[derive(Clone, Debug)]
pub struct ChatThread {
    pub id: String,
    pub participants: Vec<UserId>,
    pub last_message: Option<Message>,
    pub updated_at: u64,
}

impl ChatThread {
    pub open spec fn same(&self, o: ChatThread) -> bool {
        &&& self.id@ == o.id@
        &&& ids_view(self.participants@) == ids_view(o.participants@)
        &&& match (self.last_message, o.last_message) {
            (Some(a), Some(b)) => a.same(b),
            (None, None) => true,
            _ => false,
        }
        &&& self.updated_at == o.updated_at
    }

    pub fn copy(&self) -> (r: ChatThread)
        ensures
            r.same(*self),
    {
        let last_message = match &self.last_message {
            Some(m) => Some(m.copy()),
            None => None,
        };
        ChatThread {
            id: self.id.clone(),
            participants: copy_ids(&self.participants),
            last_message,
            updated_at: self.updated_at,
        }
    }
}

#[derive(Clone, Debug)]
pub struct Wallet {
    pub owner: UserId,
    pub balance: u64,
    pub transactions: Vec<Transaction>,
    pub created_at: u64,
}

#[derive(Clone, Debug)]
pub struct Transaction {
    pub id: u64,
    pub from: UserId,
    pub to: UserId,
    pub amount: u64,
    pub transaction_type: TransactionType,
    pub timestamp: u64,
    pub status: TransactionStatus,
    pub memo: Option<String>,
}

#[derive(Clone, Copy, Debug, PartialEq, Eq, Structural)]
pub enum TransactionType {
    Transfer,
    Tip,
    Reward,
    Purchase,
}

#[derive(Clone, Copy, Debug, PartialEq, Eq, Structural)]
pub enum TransactionStatus {
    Pending,
    Completed,
    Failed,
}

#[derive(Clone, Debug)]
pub struct TransferRequest {
    pub to: UserId,
    pub amount: u64,
    pub memo: Option<String>,
}

} // verus!
