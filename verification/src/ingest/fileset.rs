use vstd::prelude::*;

verus! {

/// How one file of a fileset is read.
#[derive(Copy, Clone, Debug, PartialEq, Eq, Structural)]
pub enum FilesetInputKind {
    Json,
    Yaml,
    /// Plain text; with `atomic_lines` each line is a token that is never split.
    Text { atomic_lines: bool },
}

/// One named input of a fileset.
#[derive(Clone, Debug)]
pub struct FilesetInput {
    pub name: String,
    pub bytes: Vec<u8>,
    pub kind: FilesetInputKind,
}

} // verus!
