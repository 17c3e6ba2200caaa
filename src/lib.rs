//! A personal bookmark manager: the search-query compiler, the listing plan,
//! tag reconciliation and the conversions between stored rows and the values
//! handed to clients.

/// Appending characters to strings.
pub mod text;
/// Splitting a search into tag names and free-text words.
pub mod search;
/// Compiling a listing's parameters into a plan.
pub mod query;
/// Rendering plans and lookups as SQL statements with bound values.
pub mod sql;
/// What a plan keeps of the stored bookmarks, and the laws of searching and paging.
pub mod listing;
/// Resolving tag names and reconciling a bookmark's tags, one store request at a time.
pub mod tags;
/// A model of the tags a store holds, and what reconciliation does to it.
pub mod tag_store;
/// Dates as seconds and as RFC 3339 text.
pub mod time;
/// Bookmarks and tags as stored and as shown.
pub mod bookmark;
/// The token check of requests.
pub mod auth;
/// Existence checks, creation times, imports and the command line.
pub mod repository;
/// Writing bookmarks out as a bookmark file.
pub mod export;
