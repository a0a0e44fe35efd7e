//! The mathematical model of the module tree: a node with its source file
//! and its children in the order of their names, what pushing a file into it
//! gives, and the steps that compile it.

use crate::ascii::{LINE_FEED, UNDERSCORE};
use crate::path::{join, lex_lt};
use vstd::prelude::*;

verus! {

/// A node of the tree: the source file that ends at it, if there is one, and
/// its children by name.
pub struct NodeView {
    pub path: Option<Seq<u8>>,
    pub children: Seq<(Seq<u8>, NodeView)>,
}

/// One step of compiling a tree.
pub enum StepView {
    /// Create the directory of this path, with the directories above it.
    MakeDir(Seq<u8>),
    /// Create the module file `file`, which must not exist yet, and write
    /// into it a declaration of each of `children`, then the content of
    /// `source`.
    WriteModule { file: Seq<u8>, children: Seq<Seq<u8>>, source: Option<Seq<u8>> },
}

/// The segment that stands for no level at all, `_`.
pub open spec fn root_name() -> Seq<u8> {
    seq![UNDERSCORE]
}

/// The name of a module file, `mod.rs`.
pub open spec fn module_file() -> Seq<u8> {
    seq![0x6du8, 0x6fu8, 0x64u8, 0x2eu8, 0x72u8, 0x73u8]
}

/// The names of some children.
pub open spec fn names(cs: Seq<(Seq<u8>, NodeView)>) -> Seq<Seq<u8>> {
    Seq::new(cs.len(), |i: int| cs[i].0)
}

/// Tells whether each name comes before every later one.
pub open spec fn ascending(names: Seq<Seq<u8>>) -> bool {
    forall|i: int, j: int| 0 <= i < j < names.len() ==> lex_lt(names[i], names[j])
}

/// The number of leading children whose names come before `name`: the place
/// of `name` among children in the order of their names.
pub open spec fn rank(cs: Seq<(Seq<u8>, NodeView)>, name: Seq<u8>) -> int
    decreases cs.len(),
{
    if cs.len() > 0 && lex_lt(cs[0].0, name) {
        1 + rank(cs.drop_first(), name)
    } else {
        0
    }
}

/// The child of this name.
pub open spec fn get(cs: Seq<(Seq<u8>, NodeView)>, name: Seq<u8>) -> Option<NodeView> {
    let at = rank(cs, name);
    if 0 <= at < cs.len() && cs[at].0 == name {
        Some(cs[at].1)
    } else {
        None
    }
}

/// The children with `node` as the child of this name: in the place of the
/// child that had the name, or else at the place of the name.
pub open spec fn put(cs: Seq<(Seq<u8>, NodeView)>, name: Seq<u8>, node: NodeView) -> Seq<
    (Seq<u8>, NodeView),
> {
    let at = rank(cs, name);
    if 0 <= at < cs.len() && cs[at].0 == name {
        cs.update(at, (name, node))
    } else {
        cs.insert(at, (name, node))
    }
}

/// The segments that make a level of their own: all but the root
/// placeholders.
pub open spec fn significant(package: Seq<Seq<u8>>) -> Seq<Seq<u8>>
    decreases package.len(),
{
    if package.len() == 0 {
        package
    } else if package.last() == root_name() {
        significant(package.drop_last())
    } else {
        significant(package.drop_last()).push(package.last())
    }
}

/// Tells whether no two of `files`, each a source file with its package,
/// have the same way into the tree.
pub open spec fn distinct_ways(files: Seq<(Seq<u8>, Seq<Seq<u8>>)>) -> bool {
    forall|i: int, j: int|
        0 <= i < j < files.len() ==> significant(files[i].1) != significant(files[j].1)
}

/// The declaration of one child in a module file: `pub mod `, the name
/// and `;`, on a line of its own.
pub open spec fn declaration_line(name: Seq<u8>) -> Seq<u8> {
    seq![0x70u8, 0x75u8, 0x62u8, 0x20u8, 0x6du8, 0x6fu8, 0x64u8, 0x20u8] + name + seq![
        0x3bu8,
        0x0au8,
    ]
}

/// The declarations of some children, one after the other.
pub open spec fn declarations(names: Seq<Seq<u8>>) -> Seq<u8>
    decreases names.len(),
{
    if names.len() == 0 {
        Seq::empty()
    } else {
        declarations(names.drop_last()) + declaration_line(names.last())
    }
}

/// What follows the declarations in a module file that carries the content
/// `text` of a source file: the content, after an empty line where there are
/// declarations.
pub open spec fn carried(names: Seq<Seq<u8>>, text: Seq<u8>) -> Seq<u8> {
    if names.len() > 0 {
        seq![LINE_FEED] + text
    } else {
        text
    }
}

/// The content of a module file: the declarations of the children, then the
/// content of the source file, if there is one, after an empty line where
/// there are declarations.
pub open spec fn rendered(names: Seq<Seq<u8>>, content: Option<Seq<u8>>) -> Seq<u8> {
    match content {
        None => declarations(names),
        Some(text) => declarations(names) + carried(names, text),
    }
}

impl NodeView {
    /// A node without a source file and without children.
    pub open spec fn empty() -> NodeView {
        NodeView { path: None, children: Seq::empty() }
    }

    /// Tells whether the children of every node stand in the order of their
    /// names, no name twice.
    pub open spec fn wf(self) -> bool
        decreases self,
    {
        &&& ascending(names(self.children))
        &&& forall|i: int| 0 <= i < self.children.len() ==> (#[trigger] self.children[i]).1.wf()
    }

    /// The tree with the source file `file` at the end of the way that
    /// `package` spells from this node. `package` holds the segments of
    /// the way with the last one first; a root placeholder among them
    /// descends nowhere.
    pub open spec fn pushed(self, file: Seq<u8>, package: Seq<Seq<u8>>) -> NodeView
        decreases package.len(),
    {
        if package.len() == 0 {
            NodeView { path: Some(file), children: self.children }
        } else if package.last() == root_name() {
            self.pushed(file, package.drop_last())
        } else {
            let child = match get(self.children, package.last()) {
                Some(child) => child,
                None => NodeView::empty(),
            };
            NodeView {
                path: self.path,
                children: put(
                    self.children,
                    package.last(),
                    child.pushed(file, package.drop_last()),
                ),
            }
        }
    }

    /// The tree with each of `files`, a source file with its package,
    /// pushed into it, one after the other.
    pub open spec fn pushed_all(self, files: Seq<(Seq<u8>, Seq<Seq<u8>>)>) -> NodeView
        decreases files.len(),
    {
        if files.len() == 0 {
            self
        } else {
            self.pushed(files[0].0, files[0].1).pushed_all(files.drop_first())
        }
    }

    /// The source file at the end of the way that `package` spells from
    /// this node.
    pub open spec fn file_at(self, package: Seq<Seq<u8>>) -> Option<Seq<u8>>
        decreases package.len(),
    {
        if package.len() == 0 {
            self.path
        } else if package.last() == root_name() {
            self.file_at(package.drop_last())
        } else {
            match get(self.children, package.last()) {
                Some(child) => child.file_at(package.drop_last()),
                None => None,
            }
        }
    }

    /// The steps that compile the first `n` children of this node into the
    /// directory `dst`.
    pub open spec fn compiled_children(self, dst: Seq<u8>, n: nat) -> Seq<StepView>
        decreases self, n,
    {
        if 0 < n <= self.children.len() {
            self.compiled_children(dst, (n - 1) as nat) + self.children[n - 1].1.compiled(
                join(dst, self.children[n - 1].0),
            )
        } else {
            Seq::empty()
        }
    }

    /// The steps that compile this node into the directory `dst`: create the
    /// directory, compile each child into the directory of its name below
    /// it, then write the module file.
    pub open spec fn compiled(self, dst: Seq<u8>) -> Seq<StepView>
        decreases self, self.children.len() + 1,
    {
        seq![StepView::MakeDir(dst)] + self.compiled_children(dst, self.children.len()) + seq![
            StepView::WriteModule {
                file: join(dst, module_file()),
                children: names(self.children),
                source: self.path,
            },
        ]
    }
}

} // verus!
