//! Verified core of a small chat bot: the replies it composes, the images it
//! lays out, the links it extracts and the state it keeps between messages.

pub mod counter;
pub mod lisa;
pub mod palette;
pub mod r34;
pub mod r_scrape;
pub mod role;
pub mod text;
