//! What holds of the library as a whole, said of what goes in and what comes
//! out.

pub mod backups;
pub mod dealings;
pub mod desk;
pub mod discoveries;
pub mod documents;
pub mod feeds;
pub mod fetching;
pub mod guards;
pub mod identities;
pub mod illustrations;
pub mod import;
pub mod intake;
pub mod json_feeds;
pub mod keys;
pub mod leaves;
pub mod markup;
pub mod outlines;
pub mod paging;
pub mod places;
pub mod reading;
pub mod searching;
pub mod shelves;
pub mod texts;
pub mod thumbnails;
pub mod upkeep;
pub mod wishes;
pub mod wording;
