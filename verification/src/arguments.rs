//! The arguments of one invocation, as the command line gave them.

use vstd::prelude::*;
use crate::text::{optional_text, texts};

verus! {

/// The raw arguments: two optional paths and the words of the operation.
#[derive(Debug)]
pub struct ContextArgs {
    /// The working directory, if one was given.
    pub pwd: Option<String>,
    /// The path of the backing file, if one was given.
    pub config: Option<String>,
    /// The words of the operation, the verb first.
    pub operation: Vec<String>,
}

/// The mathematical value of the raw arguments.
pub struct ContextArgsView {
    pub pwd: Option<Seq<char>>,
    pub config: Option<Seq<char>>,
    pub operation: Seq<Seq<char>>,
}

impl View for ContextArgs {
    type V = ContextArgsView;

    open spec fn view(&self) -> ContextArgsView {
        ContextArgsView {
            pwd: optional_text(self.pwd),
            config: optional_text(self.config),
            operation: texts(self.operation@),
        }
    }
}

} // verus!
