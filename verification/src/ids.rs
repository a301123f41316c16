//! Identifiers and small enumerations shared by every kind of asset.

use vstd::prelude::*;

verus! {

/// Which half of the game a value or a graph belongs to.
#[derive(Clone, Copy, Debug, PartialEq, Eq, Structural)]
pub enum Side {
    Server,
    Client,
}

/// Kind of a file of the editor, by the number in its header.
#[derive(Clone, Copy, Debug, PartialEq, Eq, Structural)]
pub enum FileType {
    /// `.gip`
    Project,
    /// `.gil`
    Level,
    /// `.gia`
    AssetBundle,
    Runtime,
}

impl FileType {
    pub open spec fn spec_code(self) -> u32 {
        match self {
            FileType::Project => 1,
            FileType::Level => 2,
            FileType::AssetBundle => 3,
            FileType::Runtime => 4,
        }
    }

    /// The number in the file header.
    pub fn code(&self) -> (r: u32)
        ensures
            r == self.spec_code(),
    {
        match self {
            FileType::Project => 1,
            FileType::Level => 2,
            FileType::AssetBundle => 3,
            FileType::Runtime => 4,
        }
    }
}

/// The game mode that an asset bundle is made for.
#[derive(Clone, Copy, Debug, PartialEq, Eq, Structural)]
pub enum GameMode {
    Overlimit,
    Classic,
}

/// Who defined an asset.
#[derive(Clone, Copy, Debug, PartialEq, Eq, Structural)]
pub enum Source {
    Unspecified,
    SystemDefined,
    UserDefined,
}

/// The id space an asset belongs to.
#[derive(Clone, Copy, Debug, PartialEq, Eq, Structural)]
pub enum Category {
    Default,
    ServerBasic,
    ServerNodeGraph,
    NodeDecl,
}

/// What an identified asset is.
#[derive(Clone, Copy, Debug, PartialEq, Eq, Structural)]
pub enum AssetKind {
    Unspecified,
    Basic,
    SysCallStub,
    GeneratedStub,
    CustomGraph,
    CompositeGraph,
    Structure,
}

/// The identifier of an asset or of a system node.
#[derive(Clone, Copy, Debug, PartialEq, Eq, Structural)]
pub struct Identifier {
    pub source: Source,
    pub category: Category,
    pub kind: AssetKind,
    pub guid: i64,
    pub runtime_id: i64,
}

} // verus!
