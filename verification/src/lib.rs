//! Search provider logic for recently opened editor workspaces: the workspace
//! index, the relevance score of a workspace against search terms, the ranking
//! of workspaces, and the decisions of the search provider protocol.

pub mod text;
pub mod score;
pub mod ranking;
pub mod storage;
pub mod index;
pub mod workspace;
pub mod provider;
pub mod definitions;
