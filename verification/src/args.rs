//! The run configuration the command line hands to the engine.

use vstd::prelude::*;

verus! {

/// The engine's run configuration. The string fields default to empty, the
/// search depth to 8, and the book-generation depths to 5 full and 7
/// partial layers.
pub struct Args {
    /// Multiplayer server base URL; empty means a local game.
    pub api_url: String,
    /// Player identity on the multiplayer server.
    pub player_uuid: String,
    /// Search depth in plies.
    pub search_depth: u32,
    /// Opening book file path; empty means no book.
    pub book_path: String,
    /// Generate an opening book instead of playing.
    pub generate_book: bool,
    /// Compare two evaluation settings instead of playing.
    pub compare_configs: bool,
    /// Book generation: layers where every child is explored.
    pub full_depth: u32,
    /// Book generation: layers where only the main line continues.
    pub k_partial_depth: u32,
}

impl Args {
    /// The defaults used when no flag overrides them.
    pub fn new_default() -> (r: Args)
        ensures
            r.api_url@.len() == 0,
            r.player_uuid@.len() == 0,
            r.search_depth == 8,
            r.book_path@.len() == 0,
            !r.generate_book,
            !r.compare_configs,
            r.full_depth == 5,
            r.k_partial_depth == 7,
    {
        Args {
            api_url: String::new(),
            player_uuid: String::new(),
            search_depth: 8,
            book_path: String::new(),
            generate_book: false,
            compare_configs: false,
            full_depth: 5,
            k_partial_depth: 7,
        }
    }
}

} // verus!
