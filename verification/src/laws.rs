//! Properties that span several functions, proved of their models.

pub mod calls;
pub mod cap;
pub mod composition;
pub mod context;
pub mod entries;
pub mod layout;
pub mod markdown;
pub mod notes;
pub mod phrases;
pub mod pins;
pub mod promotion;
pub mod reading;
pub mod retrieval;
pub mod searches;
pub mod storage;
pub mod supersession;
pub mod terms;
