//! The persistent store: a file path paired with the codec. The store owns
//! the decisions of the load/save protocol — what an absent or unreadable
//! file means, what document is written — while the embedding program
//! performs the file reads, the same-directory temporary file, and the
//! atomic rename, and reports which I/O step failed with these error types.

use vstd::prelude::*;

use crate::codec::{encode_graph, render_graph};
use crate::graph::Graph;
use crate::parse::{decode_graph, parse_graph};

verus! {

/// A failed load; each variant names the file concerned.
#[derive(Debug)]
pub enum LoadError {
    /// The file exists but could not be opened or read.
    Unreadable { path: String },
    /// The file was read but does not hold a well-formed graph document.
    Malformed { path: String },
}

/// A failed save; each variant names the path concerned and the step of the
/// atomic-write protocol that failed.
#[derive(Debug)]
pub enum SaveError {
    /// Creating the target's parent directory failed.
    DirCreate { path: String },
    /// Creating the temporary file in the target's directory failed.
    TempCreate { path: String },
    /// Writing the document into the temporary file failed.
    Write { path: String },
    /// Atomically replacing the target with the temporary file failed.
    Persist { path: String },
}

/// A graph store at one configured file path.
pub struct GraphStore {
    path: String,
}

impl GraphStore {
    /// The configured path.
    pub closed spec fn path_view(&self) -> Seq<char> {
        self.path@
    }

    /// A store for the given file path.
    pub fn new(path: String) -> (s: GraphStore)
        ensures
            s.path_view() == path@,
    {
        GraphStore { path }
    }

    /// The configured path, for the embedding program's file access.
    pub fn path(&self) -> (p: &String)
        ensures
            p@ == self.path_view(),
    {
        &self.path
    }

    /// What a load yields, given the file's contents: no file at the path is
    /// not an error and gives the empty graph; otherwise the document is
    /// decoded, and a document the grammar rejects gives `Malformed` naming
    /// the configured path.
    pub fn load_from_contents(&self, contents: Option<&str>) -> (r: Result<Graph, LoadError>)
        ensures
            match contents {
                None => r matches Ok(g) && g@.nodes.len() == 0 && g@.edges.len() == 0 && g@.wf(),
                Some(text) => match r {
                    Ok(g) => parse_graph(text@) == Some(g@) && g@.wf(),
                    Err(e) => parse_graph(text@) is None && (e matches LoadError::Malformed {
                        path,
                    } && path@ == self.path_view()),
                },
            },
    {
        match contents {
            None => Ok(Graph::new()),
            Some(text) => match decode_graph(text) {
                Some(g) => Ok(g),
                None => Err(LoadError::Malformed { path: self.path.clone() }),
            },
        }
    }

    /// The exact document a save writes for this graph.
    pub fn save_to_string(&self, g: &Graph) -> (r: String)
        ensures
            r@ == render_graph(g@),
    {
        encode_graph(g)
    }
}

} // verus!
