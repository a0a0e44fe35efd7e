//! The module tree: built from generated files whose names spell a dotted
//! namespace, and compiled into the steps that lay it out as directories
//! with one module file each.

use crate::ascii::{LINE_FEED, UNDERSCORE};
use crate::children::lemma_rank_is;
use crate::namespace::{
    carried, declaration_line, declarations, module_file, names, put, rendered, root_name,
    NodeView, StepView,
};
use crate::path::{
    append, bytes_eq, bytes_lt, copy, extension, file_stem, get_file_stem, get_join, get_package,
    has_extension, join, lex_lt, package_of, views,
};
use crate::tree::{declares_in_order, lemma_compiled_in_order, lemma_pushed_wf};
use crate::Entry;
use vstd::prelude::*;

verus! {

/// The ways in which building a tree can fail.
#[derive(Debug, PartialEq, Eq)]
pub enum Error {
    /// This path has no file name.
    FileName(Vec<u8>),
}

/// A child of a node, under its name.
#[derive(Debug, PartialEq, Eq)]
pub struct Child {
    pub name: Vec<u8>,
    pub node: Node,
}

/// A node of the tree: the source file that ends at it, if there is one, and
/// its children in the order of their names, no name twice.
#[derive(Debug, PartialEq, Eq)]
pub struct Node {
    path: Option<Vec<u8>>,
    children: Vec<Child>,
}

/// The module tree.
#[derive(Debug, PartialEq, Eq)]
pub struct Tree {
    pub root: Node,
}

/// One step of compiling a tree.
#[derive(Debug, PartialEq, Eq)]
pub enum Step {
    /// Create the directory of this path, with the directories above it.
    MakeDir(Vec<u8>),
    /// Create the module file `file`, which must not exist yet, and write
    /// into it a declaration of each of `children`, then the content of
    /// `source`.
    WriteModule { file: Vec<u8>, children: Vec<Vec<u8>>, source: Option<Vec<u8>> },
}

/// The view of bytes that may be absent.
pub open spec fn view_of(bytes: Option<Vec<u8>>) -> Option<Seq<u8>> {
    match bytes {
        Some(b) => Some(b@),
        None => None,
    }
}

/// The views of the first `n` of some children.
pub open spec fn children_view(cs: Seq<Child>, n: nat) -> Seq<(Seq<u8>, NodeView)>
    decreases cs, n,
{
    if 0 < n <= cs.len() {
        children_view(cs, (n - 1) as nat).push((cs[n - 1].name@, node_view(cs[n - 1].node)))
    } else {
        Seq::empty()
    }
}

/// The view of a node.
pub closed spec fn node_view(node: Node) -> NodeView
    decreases node, 0nat,
{
    NodeView {
        path: view_of(node.path),
        children: children_view(node.children@, node.children@.len()),
    }
}

impl View for Node {
    type V = NodeView;

    open spec fn view(&self) -> NodeView {
        node_view(*self)
    }
}

impl View for Tree {
    type V = NodeView;

    open spec fn view(&self) -> NodeView {
        self.root@
    }
}

impl View for Step {
    type V = StepView;

    open spec fn view(&self) -> StepView {
        match *self {
            Step::MakeDir(path) => StepView::MakeDir(path@),
            Step::WriteModule { file, children, source } => StepView::WriteModule {
                file: file@,
                children: views(children@),
                source: view_of(source),
            },
        }
    }
}

proof fn lemma_children_view(cs: Seq<Child>, n: nat)
    requires
        n <= cs.len(),
    ensures
        children_view(cs, n).len() == n,
        forall|i: int|
            0 <= i < n ==> #[trigger] children_view(cs, n)[i] == (cs[i].name@, cs[i].node@),
    decreases n,
{
    if n > 0 {
        lemma_children_view(cs, (n - 1) as nat);
    }
}

/// What the view of a node holds.
proof fn lemma_node_view(node: &Node)
    ensures
        node@.path == view_of(node.path),
        node@.children.len() == node.children.len(),
        forall|i: int|
            0 <= i < node.children.len() ==> #[trigger] node@.children[i] == (
                node.children[i].name@,
                node.children[i].node@,
            ),
{
    lemma_children_view(node.children@, node.children@.len());
}

/// The views of some steps.
pub open spec fn step_views(steps: Seq<Step>) -> Seq<StepView> {
    Seq::new(steps.len(), |i: int| steps[i]@)
}

/// The place of `name` among `children`.
fn position(children: &Vec<Child>, name: &[u8]) -> (at: usize)
    ensures
        at <= children.len(),
        forall|j: int| 0 <= j < at ==> lex_lt((#[trigger] children[j]).name@, name@),
        at < children.len() ==> !lex_lt(children[at as int].name@, name@),
{
    let mut at: usize = 0;
    while at < children.len() && bytes_lt(children[at].name.as_slice(), name)
        invariant
            at <= children.len(),
            forall|j: int| 0 <= j < at ==> lex_lt((#[trigger] children[j]).name@, name@),
        decreases children.len() - at,
    {
        at += 1;
    }
    at
}

/// The name of a module file.
fn module_file_name() -> (r: Vec<u8>)
    ensures
        r@ == module_file(),
{
    let mut r = Vec::new();
    r.push(0x6d);
    r.push(0x6f);
    r.push(0x64);
    r.push(0x2e);
    r.push(0x72);
    r.push(0x73);
    r
}

impl Node {
    #[verifier::type_invariant]
    spec fn inv(self) -> bool {
        node_view(self).wf()
    }

    /// A node without a source file and without children.
    pub fn new() -> (node: Node)
        ensures
            node@ == NodeView::empty(),
            node@.wf(),
    {
        let path: Option<Vec<u8>> = None;
        let children: Vec<Child> = Vec::new();
        Node { path, children }
    }

    /// The source file that ends at this node.
    pub fn path(&self) -> (path: Option<&Vec<u8>>)
        ensures
            match path {
                Some(p) => self@.path == Some(p@),
                None => self@.path is None,
            },
    {
        self.path.as_ref()
    }

    /// The children of this node, in the order of their names.
    pub fn children(&self) -> (children: &Vec<Child>)
        ensures
            self@.children == children_view(children@, children@.len()),
            self@.wf(),
    {
        proof {
            use_type_invariant(self);
        }
        &self.children
    }

    /// Puts the source file `path` at the end of the way that `package`
    /// spells from this node. `package` holds the segments of the way with
    /// the last one first.
    pub fn push(self, path: Vec<u8>, package: Vec<Vec<u8>>) -> (node: Node)
        ensures
            node@ == self@.pushed(path@, views(package@)),
            node@.wf(),
        decreases package.len(),
    {
        let ghost whole = views(package@);
        proof {
            use_type_invariant(&self);
            lemma_node_view(&self);
            lemma_pushed_wf(self@, path@, whole);
        }
        let mut package = package;
        match package.pop() {
            None => {
                Node { path: Some(path), children: self.children }
            },
            Some(part) => {
                assert(views(package@) =~= whole.drop_last());
                if part.len() == 1 && part[0] == UNDERSCORE {
                    assert(part@ =~= root_name());
                    self.push(path, package)
                } else {
                    let ghost before = self@.children;
                    let Node { path: own, mut children } = self;
                    let at = position(&children, part.as_slice());
                    proof {
                        assert forall|j: int| 0 <= j < at implies lex_lt(
                            (#[trigger] before[j]).0,
                            part@,
                        ) by {}
                        lemma_rank_is(before, part@, at as int);
                    }
                    let found = at < children.len() && bytes_eq(
                        children[at].name.as_slice(),
                        part.as_slice(),
                    );
                    let child = if found {
                        children.remove(at).node
                    } else {
                        Node::new()
                    };
                    let placed = child.push(path, package);
                    children.insert(at, Child { name: part, node: placed });
                    let ghost after = Node { path: own, children };
                    proof {
                        lemma_node_view(&after);
                        assert(after@.children =~= put(before, part@, placed@));
                    }
                    Node { path: own, children }
                }
            },
        }
    }

    /// Appends the steps that compile this node into the directory `dst`.
    fn plan(&self, dst: &[u8], steps: &mut Vec<Step>)
        ensures
            step_views(final(steps)@) == step_views(old(steps)@) + self@.compiled(dst@),
        decreases self,
    {
        let ghost start = step_views(steps@);
        proof {
            lemma_node_view(self);
        }
        steps.push(Step::MakeDir(copy(dst)));
        let mut declared: Vec<Vec<u8>> = Vec::new();
        let mut i: usize = 0;
        while i < self.children.len()
            invariant
                i <= self.children.len(),
                step_views(steps@) == start + seq![StepView::MakeDir(dst@)]
                    + self@.compiled_children(dst@, i as nat),
                views(declared@) == names(self@.children).subrange(0, i as int),
            decreases self.children.len() - i,
        {
            let ghost seen = views(declared@);
            proof {
                lemma_node_view(self);
            }
            let child = &self.children[i];
            let dir = get_join(dst, child.name.as_slice());
            child.node.plan(dir.as_slice(), steps);
            declared.push(copy(child.name.as_slice()));
            assert(views(declared@) =~= seen.push(child.name@));
            assert(step_views(steps@) =~= start + seq![StepView::MakeDir(dst@)]
                + self@.compiled_children(dst@, (i + 1) as nat));
            i += 1;
        }
        let ghost before = step_views(steps@);
        let file = get_join(dst, module_file_name().as_slice());
        let source = match &self.path {
            Some(path) => Some(copy(path.as_slice())),
            None => None,
        };
        assert(names(self@.children).subrange(0, i as int) =~= names(self@.children));
        steps.push(Step::WriteModule { file, children: declared, source });
        assert(step_views(steps@) =~= before + seq![
            StepView::WriteModule {
                file: join(dst@, module_file()),
                children: names(self@.children),
                source: self@.path,
            },
        ]);
    }

    /// The steps that compile this node into the directory `dst`: create the
    /// directory, compile each child into the directory of its name below
    /// it, then write the module file, which declares the children in the
    /// order in which the node holds them.
    pub fn compile(self, dst: Vec<u8>) -> (steps: Vec<Step>)
        ensures
            step_views(steps@) == self@.compiled(dst@),
            forall|k: int| 0 <= k < steps@.len() ==> declares_in_order((#[trigger] steps@[k])@),
    {
        proof {
            use_type_invariant(&self);
        }
        let mut steps = Vec::new();
        self.plan(dst.as_slice(), &mut steps);
        proof {
            assert(step_views(Seq::<Step>::empty()) + self@.compiled(dst@) =~= self@.compiled(
                dst@,
            ));
            lemma_compiled_in_order(self@, dst@);
            assert forall|k: int| 0 <= k < steps@.len() implies declares_in_order(
                (#[trigger] steps@[k])@,
            ) by {
                assert(step_views(steps@)[k] == steps@[k]@);
            }
        }
        steps
    }
}

impl Tree {
    /// A tree without files.
    pub fn new() -> (tree: Tree)
        ensures
            tree@ == NodeView::empty(),
            tree@.wf(),
    {
        Tree { root: Node::new() }
    }

    /// Puts the source file `path` where its name says: the file name
    /// without its extension spells the way from the root, segment by
    /// segment between the dots. A path without a file name is refused.
    pub fn push(self, path: Vec<u8>) -> (tree: Result<Tree, Error>)
        ensures
            match tree {
                Ok(tree) => {
                    &&& file_stem(path@) matches Some(stem)
                    &&& tree@ == self@.pushed(path@, package_of(stem))
                    &&& tree@.wf()
                },
                Err(Error::FileName(refused)) => file_stem(path@) is None && refused@ == path@,
            },
    {
        match get_file_stem(path.as_slice()) {
            None => Err(Error::FileName(path)),
            Some(stem) => {
                let package = get_package(stem.as_slice());
                Ok(Tree { root: self.root.push(path, package) })
            },
        }
    }

    /// The steps that compile the tree into the directory `dst`.
    pub fn compile(self, dst: &[u8]) -> (steps: Vec<Step>)
        ensures
            step_views(steps@) == self@.compiled(dst@),
            forall|k: int| 0 <= k < steps@.len() ==> declares_in_order((#[trigger] steps@[k])@),
    {
        self.root.compile(copy(dst))
    }
}

/// Appends the declaration of the child `name`: `pub mod `, the name and
/// `;`, on a line of its own.
fn append_declaration(text: &mut Vec<u8>, name: &[u8])
    ensures
        final(text)@ == old(text)@ + declaration_line(name@),
{
    text.push(0x70);
    text.push(0x75);
    text.push(0x62);
    text.push(0x20);
    text.push(0x6d);
    text.push(0x6f);
    text.push(0x64);
    text.push(0x20);
    append(text, name, 0, name.len());
    text.push(0x3b);
    text.push(0x0a);
}

/// The declarations of `children`, as a module file begins with them.
pub fn render_declarations(children: &Vec<Vec<u8>>) -> (text: Vec<u8>)
    ensures
        text@ == declarations(views(children@)),
{
    let mut text: Vec<u8> = Vec::new();
    let mut i: usize = 0;
    while i < children.len()
        invariant
            i <= children.len(),
            text@ == declarations(views(children@).subrange(0, i as int)),
        decreases children.len() - i,
    {
        append_declaration(&mut text, children[i].as_slice());
        proof {
            let all = views(children@);
            assert(all.subrange(0, i + 1).drop_last() =~= all.subrange(0, i as int));
        }
        i += 1;
    }
    assert(views(children@).subrange(0, i as int) =~= views(children@));
    text
}

/// What follows the declarations of `children` in a module file that
/// carries the content `content` of a source file.
pub fn render_content(children: &Vec<Vec<u8>>, content: &[u8]) -> (text: Vec<u8>)
    ensures
        text@ == carried(views(children@), content@),
{
    let mut text: Vec<u8> = Vec::new();
    if children.len() > 0 {
        text.push(LINE_FEED);
    }
    append(&mut text, content, 0, content.len());
    text
}

/// The content of a module file that declares `children` and carries
/// `content`.
pub fn render_module(children: &Vec<Vec<u8>>, content: Option<&[u8]>) -> (text: Vec<u8>)
    ensures
        text@ == rendered(
            views(children@),
            match content {
                Some(c) => Some(c@),
                None => None,
            },
        ),
{
    let mut text = render_declarations(children);
    match content {
        None => {},
        Some(c) => {
            let mut rest = render_content(children, c);
            text.append(&mut rest);
        },
    }
    text
}

/// The extension of generated source files, `rs`.
pub open spec fn rust_extension() -> Seq<u8> {
    seq![0x72u8, 0x73u8]
}

/// Tells whether an entry is a generated source file: a regular file with
/// the extension `rs`.
pub open spec fn rust_file(e: Entry) -> bool {
    e.is_file && extension(e.path@) == Some(rust_extension())
}

/// Tells whether an entry is a generated source file.
pub fn is_rust_file(e: &Entry) -> (r: bool)
    ensures
        r == rust_file(*e),
{
    let mut ext: Vec<u8> = Vec::new();
    ext.push(0x72);
    ext.push(0x73);
    assert(ext@ =~= rust_extension());
    e.is_file && has_extension(e.path.as_slice(), ext.as_slice())
}

/// The generated source files among `entries`, in their order, each with
/// the package that its name spells.
pub open spec fn sources(entries: Seq<Entry>) -> Seq<(Seq<u8>, Seq<Seq<u8>>)>
    decreases entries.len(),
{
    if entries.len() == 0 {
        Seq::empty()
    } else if rust_file(entries[0]) {
        seq![(entries[0].path@, package_of(file_stem(entries[0].path@)->Some_0))] + sources(
            entries.drop_first(),
        )
    } else {
        sources(entries.drop_first())
    }
}

/// Lays out the generated source files among `entries` as a module tree
/// below the directory `dst`: the steps that create its directories and
/// write its module files. Every generated source file has a file name, so
/// this always succeeds.
pub fn modularize(entries: &Vec<Entry>, dst: &[u8]) -> (steps: Result<Vec<Step>, Error>)
    ensures
        steps is Ok,
        step_views(steps->Ok_0@) == NodeView::empty().pushed_all(sources(entries@)).compiled(
            dst@,
        ),
        forall|k: int|
            0 <= k < steps->Ok_0@.len() ==> declares_in_order((#[trigger] steps->Ok_0@[k])@),
{
    let mut tree = Tree::new();
    let mut i: usize = 0;
    assert(entries@.skip(0) =~= entries@);
    while i < entries.len()
        invariant
            i <= entries.len(),
            tree@.pushed_all(sources(entries@.skip(i as int))) == NodeView::empty().pushed_all(
                sources(entries@),
            ),
        decreases entries.len() - i,
    {
        assert(entries@.skip(i as int).drop_first() =~= entries@.skip(i + 1));
        proof {
            let rest = sources(entries@.skip(i + 1));
            if rust_file(entries@[i as int]) {
                assert(sources(entries@.skip(i as int)).drop_first() =~= rest);
            }
        }
        if is_rust_file(&entries[i]) {
            let path = copy(entries[i].path.as_slice());
            match tree.push(path) {
                Ok(next) => {
                    tree = next;
                },
                Err(e) => {
                    return Err(e);
                },
            }
        }
        i += 1;
    }
    Ok(tree.compile(dst))
}

} // verus!
