//! The state engine of a small social network: posts, follows, comments,
//! messages and notifications, and the signals they leave behind (who
//! interacts with whom, who cares about which hashtags, which hashtags are
//! in use), from which a personal feed and suggestions of whom to follow are
//! ranked.
pub mod assoc;
pub mod backend;
pub mod laws;
pub mod ranking;
pub mod signals;
pub mod text;
pub mod types;
pub mod user;

pub use backend::Backend;
pub use signals::{ContentAffinity, InteractionGraph, Trending, TrendingTopic};
pub use text::{extract_hashtags, greet, llm_prompt};
pub use types::{
    ChatThread, Comment, Message, Notification, NotificationType, Post, PostType, Todo, Transaction,
    TransactionStatus, TransactionType, TransferRequest, UserProfile, Wallet,
};
pub use user::UserId;
