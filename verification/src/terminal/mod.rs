//! What a terminal keeps and shows: the feed of a core, and the texts of its panels.

pub mod book_view;
pub mod chart;
pub mod clock;
pub mod feed;
pub mod panels;
