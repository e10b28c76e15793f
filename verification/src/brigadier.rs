//! Building a tree of commands: nodes that are not built yet take children
//! and options, and are built into the nodes of the tree.

use vstd::prelude::*;

verus! {

/// A word that has to be typed as it is.
#[derive(Clone, Debug, PartialEq, Eq)]
pub struct Literal {
    pub value: String,
}

/// A value that is read by a parser.
#[derive(Clone, Debug, PartialEq, Eq)]
pub struct Argument {
    pub name: String,
    /// The parser, as the number under which the program keeps it.
    pub parser: u32,
}

/// What a node reads.
#[derive(Clone, Debug, PartialEq, Eq)]
pub enum ArgumentBuilderType {
    Literal(Literal),
    Argument(Argument),
}

impl ArgumentBuilderType {
    /// The name under which a node is kept among its parent's children: the
    /// literal's word, or the argument's name.
    pub open spec fn name(self) -> Seq<char> {
        match self {
            ArgumentBuilderType::Literal(literal) => literal.value@,
            ArgumentBuilderType::Argument(argument) => argument.name@,
        }
    }

    fn name_text(&self) -> (name: &String)
        ensures
            name@ == self.name(),
    {
        match self {
            ArgumentBuilderType::Literal(literal) => &literal.value,
            ArgumentBuilderType::Argument(argument) => &argument.name,
        }
    }

    /// Whether two nodes would be kept under the same name.
    pub fn same_name(&self, other: &ArgumentBuilderType) -> (same: bool)
        ensures
            same == (self.name() == other.name()),
    {
        *self.name_text() == *other.name_text()
    }
}

/// A node of the tree. Commands, requirements, modifiers and the nodes that
/// a node redirects to are kept by the program: the tree holds the numbers
/// under which it keeps them.
#[derive(Debug)]
pub struct CommandNode {
    pub value: ArgumentBuilderType,
    pub children: Vec<CommandNode>,
    pub command: Option<u32>,
    /// The requirement, or `None` for one that everyone meets.
    pub requirement: Option<u32>,
    pub redirect: Option<u32>,
    pub modifier: Option<u32>,
    pub forks: bool,
}

/// What a node is, with all that hangs below it.
pub struct Tree {
    pub value: ArgumentBuilderType,
    pub children: Seq<Tree>,
    pub command: Option<u32>,
    pub requirement: Option<u32>,
    pub redirect: Option<u32>,
    pub modifier: Option<u32>,
    pub forks: bool,
}

/// The trees of the first `n` nodes.
pub open spec fn trees(nodes: Seq<CommandNode>, n: nat) -> Seq<Tree>
    decreases nodes, n,
{
    if n == 0 || n > nodes.len() {
        Seq::empty()
    } else {
        trees(nodes, (n - 1) as nat).push(nodes[n - 1].tree())
    }
}

/// The place of the first tree with the name among the first `n`.
pub open spec fn place_of(children: Seq<Tree>, name: Seq<char>, n: nat) -> Option<int>
    decreases n,
{
    if n == 0 || n > children.len() {
        None
    } else {
        match place_of(children, name, (n - 1) as nat) {
            Some(i) => Some(i),
            None => if children[n - 1].value.name() == name {
                Some(n - 1)
            } else {
                None
            },
        }
    }
}

/// The parent after `node` was added to it. A node with a new name joins
/// the children. A node whose name a child has is merged onto that child:
/// the child takes over the node's command, if the node has one, and the
/// node's children are added to the child one after the other.
pub open spec fn with_child(parent: Tree, node: Tree) -> Tree
    decreases node, 0nat,
{
    match place_of(parent.children, node.value.name(), parent.children.len()) {
        None => Tree { children: parent.children.push(node), ..parent },
        Some(i) => {
            let child = parent.children[i];
            let taken = Tree {
                command: if node.command.is_some() {
                    node.command
                } else {
                    child.command
                },
                ..child
            };
            Tree {
                children: parent.children.update(
                    i,
                    with_children(taken, node.children, node.children.len()),
                ),
                ..parent
            }
        },
    }
}

/// The parent after the first `n` of `nodes` were added to it, in order.
pub open spec fn with_children(parent: Tree, nodes: Seq<Tree>, n: nat) -> Tree
    decreases nodes, n,
{
    if n == 0 || n > nodes.len() {
        parent
    } else {
        with_child(with_children(parent, nodes, (n - 1) as nat), nodes[n - 1])
    }
}

impl CommandNode {
    /// What the node is, with all that hangs below it.
    pub open spec fn tree(self) -> Tree
        decreases self,
    {
        Tree {
            value: self.value,
            children: trees(self.children@, self.children@.len()),
            command: self.command,
            requirement: self.requirement,
            redirect: self.redirect,
            modifier: self.modifier,
            forks: self.forks,
        }
    }

    /// A node without children, command, or anything else.
    pub fn new(value: ArgumentBuilderType) -> (node: CommandNode)
        ensures
            node.value == value,
            node.children@.len() == 0,
            node.command.is_none(),
            node.requirement.is_none(),
            node.redirect.is_none(),
            node.modifier.is_none(),
            !node.forks,
    {
        CommandNode {
            value,
            children: Vec::new(),
            command: None,
            requirement: None,
            redirect: None,
            modifier: None,
            forks: false,
        }
    }

    /// The place of the first child with the name of `value`.
    fn find_child(&self, value: &ArgumentBuilderType) -> (found: Option<usize>)
        ensures
            match found {
                Some(i) => place_of(self.tree().children, value.name(), self.children@.len())
                    == Some(i as int) && i < self.children@.len(),
                None => place_of(self.tree().children, value.name(), self.children@.len())
                    .is_none(),
            },
    {
        let ghost children = self.tree().children;
        proof {
            lemma_trees(self.children@, self.children@.len());
        }
        let mut i: usize = 0;
        while i < self.children.len()
            invariant
                i <= self.children@.len(),
                children == self.tree().children,
                children.len() == self.children@.len(),
                forall|k: int|
                    0 <= k < children.len() ==> (#[trigger] children[k]).value
                        == self.children@[k].value,
                place_of(children, value.name(), i as nat).is_none(),
            decreases self.children@.len() - i,
        {
            if self.children[i].value.same_name(value) {
                proof {
                    lemma_place_found(children, value.name(), (i + 1) as nat, children.len());
                }
                return Some(i);
            }
            i += 1;
        }
        None
    }

    /// Adds `node` below this node.
    pub fn add_child(&mut self, node: CommandNode)
        ensures
            final(self).tree() == with_child(old(self).tree(), node.tree()),
        decreases node, 0nat,
    {
        proof {
            lemma_trees(self.children@, self.children@.len());
            lemma_trees(node.children@, node.children@.len());
        }
        match self.find_child(&node.value) {
            None => {
                self.children.push(node);
                proof {
                    lemma_trees_push(old(self).children@, node);
                }
            },
            Some(i) => {
                let ghost before = self.children@;
                let mut child = self.children.remove(i);
                if node.command.is_some() {
                    child.command = node.command;
                }
                child.add_children(node.children);
                self.children.insert(i, child);
                proof {
                    assert(self.children@ == before.update(i as int, child));
                    lemma_trees_update(before, i as int, child);
                }
            },
        }
    }

    /// Adds `nodes` below this node, one after the other.
    pub fn add_children(&mut self, nodes: Vec<CommandNode>)
        ensures
            final(self).tree() == with_children(
                old(self).tree(),
                trees(nodes@, nodes@.len()),
                nodes@.len(),
            ),
        decreases nodes, 1nat,
    {
        let ghost all = nodes@;
        let total: usize = nodes.len();
        proof {
            lemma_trees(all, all.len());
        }
        // nodes are taken from the back of a list: turn the list round, so
        // that they are added in their order
        let ghost given = nodes;
        let mut list = nodes;
        let mut rest: Vec<CommandNode> = Vec::new();
        while list.len() > 0
            invariant
                all.len() == total,
                list@.len() + rest@.len() == all.len(),
                forall|j: int| 0 <= j < list@.len() ==> list@[j] == all[j],
                forall|j: int| 0 <= j < rest@.len() ==> rest@[j] == all[all.len() - 1 - j],
            decreases list@.len(),
        {
            match list.pop() {
                Some(last) => rest.push(last),
                None => vstd::pervasive::unreached(),
            }
        }
        let mut k: usize = 0;
        while rest.len() > 0
            invariant
                all.len() == total,
                all == given@,
                given == nodes,
                k + rest@.len() == all.len(),
                forall|j: int| 0 <= j < rest@.len() ==> rest@[j] == all[all.len() - 1 - j],
                self.tree() == with_children(old(self).tree(), trees(all, all.len()), k as nat),
                trees(all, all.len()).len() == all.len(),
                forall|j: int|
                    0 <= j < all.len() ==> (#[trigger] trees(all, all.len())[j]) == all[j].tree(),
            decreases rest@.len(),
        {
            match rest.pop() {
                Some(node) => {
                    assert(node == all[k as int]);
                    assert(decreases_to!(given => given@));
                    assert(decreases_to!(given@ => given@[k as int]));
                    self.add_child(node);
                    k += 1;
                },
                None => vstd::pervasive::unreached(),
            }
        }
    }
}

/// The trees of nodes are the nodes' trees, one for one.
pub proof fn lemma_trees(nodes: Seq<CommandNode>, n: nat)
    requires
        n <= nodes.len(),
    ensures
        trees(nodes, n).len() == n,
        forall|k: int| 0 <= k < n ==> (#[trigger] trees(nodes, n)[k]) == nodes[k].tree(),
    decreases n,
{
    if n > 0 {
        lemma_trees(nodes, (n - 1) as nat);
    }
}

proof fn lemma_trees_push(nodes: Seq<CommandNode>, node: CommandNode)
    ensures
        trees(nodes.push(node), nodes.len() + 1) == trees(nodes, nodes.len()).push(node.tree()),
{
    lemma_trees(nodes, nodes.len());
    lemma_trees(nodes.push(node), nodes.len() + 1);
    assert(trees(nodes.push(node), nodes.len() + 1) =~= trees(nodes, nodes.len()).push(
        node.tree(),
    ));
}

proof fn lemma_trees_update(nodes: Seq<CommandNode>, i: int, node: CommandNode)
    requires
        0 <= i < nodes.len(),
    ensures
        trees(nodes.update(i, node), nodes.len()) == trees(nodes, nodes.len()).update(
            i,
            node.tree(),
        ),
{
    lemma_trees(nodes, nodes.len());
    lemma_trees(nodes.update(i, node), nodes.len());
    assert(trees(nodes.update(i, node), nodes.len()) =~= trees(nodes, nodes.len()).update(
        i,
        node.tree(),
    ));
}

/// A name that is not among the first `n - 1` and is the name of the tree
/// after them is found there, however many trees follow.
proof fn lemma_place_found(children: Seq<Tree>, name: Seq<char>, n: nat, m: nat)
    requires
        1 <= n <= m <= children.len(),
        place_of(children, name, (n - 1) as nat).is_none(),
        children[n - 1].value.name() == name,
    ensures
        place_of(children, name, m) == Some(n - 1),
    decreases m - n,
{
    if n < m {
        lemma_place_found(children, name, n, (m - 1) as nat);
    }
}

/// A node that hasn't yet been built.
#[derive(Debug)]
pub struct ArgumentBuilder {
    pub arguments: CommandNode,
    pub command: Option<u32>,
    pub requirement: Option<u32>,
    pub target: Option<u32>,
    pub forks: bool,
    pub modifier: Option<u32>,
}

impl ArgumentBuilder {
    /// What the builder builds: a node with the builder's options, below
    /// which the children that the builder took are added one after the
    /// other.
    pub open spec fn built(self) -> Tree {
        let children = self.arguments.tree().children;
        with_children(
            Tree {
                value: self.arguments.value,
                children: Seq::empty(),
                command: self.command,
                requirement: self.requirement,
                redirect: self.target,
                modifier: self.modifier,
                forks: self.forks,
            },
            children,
            children.len(),
        )
    }

    /// A builder for a node that reads `value`: without children, without a
    /// command, open to everyone, and leading nowhere else.
    pub fn new(value: ArgumentBuilderType) -> (builder: ArgumentBuilder)
        ensures
            builder.arguments.value == value,
            builder.arguments.children@.len() == 0,
            builder.command.is_none(),
            builder.requirement.is_none(),
            builder.target.is_none(),
            !builder.forks,
            builder.modifier.is_none(),
    {
        ArgumentBuilder {
            arguments: CommandNode::new(value),
            command: None,
            requirement: None,
            forks: false,
            modifier: None,
            target: None,
        }
    }

    /// Adds what `argument` builds below this node.
    pub fn then(self, argument: ArgumentBuilder) -> (builder: ArgumentBuilder)
        ensures
            builder.arguments.tree() == with_child(self.arguments.tree(), argument.built()),
            builder.command == self.command,
            builder.requirement == self.requirement,
            builder.target == self.target,
            builder.forks == self.forks,
            builder.modifier == self.modifier,
    {
        self.then_built(argument.build())
    }

    /// Adds a node that is built below this node.
    pub fn then_built(self, argument: CommandNode) -> (builder: ArgumentBuilder)
        ensures
            builder.arguments.tree() == with_child(self.arguments.tree(), argument.tree()),
            builder.command == self.command,
            builder.requirement == self.requirement,
            builder.target == self.target,
            builder.forks == self.forks,
            builder.modifier == self.modifier,
    {
        let mut builder = self;
        builder.arguments.add_child(argument);
        builder
    }

    /// Sets the command that runs where the input ends at this node.
    pub fn executes(self, command: u32) -> (builder: ArgumentBuilder)
        ensures
            builder == (ArgumentBuilder { command: Some(command), ..self }),
    {
        let mut builder = self;
        builder.command = Some(command);
        builder
    }

    /// Sets what a source has to meet to use this node.
    pub fn requires_that(self, requirement: u32) -> (builder: ArgumentBuilder)
        ensures
            builder == (ArgumentBuilder { requirement: Some(requirement), ..self }),
    {
        let mut builder = self;
        builder.requirement = Some(requirement);
        builder
    }

    /// Makes the node lead on to `target`.
    pub fn redirect(self, target: u32) -> (builder: ArgumentBuilder)
        requires
            self.arguments.children@.len() == 0,
        ensures
            builder == (ArgumentBuilder {
                target: Some(target),
                modifier: None,
                forks: false,
                ..self
            }),
    {
        self.forward(target, None, false)
    }

    /// Makes the node lead on to `target` for every source that `modifier`
    /// makes of one.
    pub fn fork(self, target: u32, modifier: u32) -> (builder: ArgumentBuilder)
        requires
            self.arguments.children@.len() == 0,
        ensures
            builder == (ArgumentBuilder {
                target: Some(target),
                modifier: Some(modifier),
                forks: true,
                ..self
            }),
    {
        self.forward(target, Some(modifier), true)
    }

    /// Makes the node lead on to `target`. A node with children cannot be
    /// forwarded.
    pub fn forward(self, target: u32, modifier: Option<u32>, fork: bool) -> (builder:
        ArgumentBuilder)
        requires
            self.arguments.children@.len() == 0,
        ensures
            builder == (ArgumentBuilder { target: Some(target), modifier, forks: fork, ..self }),
    {
        let mut builder = self;
        builder.target = Some(target);
        builder.modifier = modifier;
        builder.forks = fork;
        builder
    }

    /// Whether the builder may be forwarded: it has no children.
    pub fn can_forward(&self) -> (can: bool)
        ensures
            can == (self.arguments.children@.len() == 0),
    {
        self.arguments.children.len() == 0
    }

    /// Builds the node.
    pub fn build(self) -> (node: CommandNode)
        ensures
            node.tree() == self.built(),
    {
        let mut result = CommandNode {
            value: self.arguments.value,
            command: self.command,
            requirement: self.requirement,
            redirect: self.target,
            modifier: self.modifier,
            forks: self.forks,
            children: Vec::new(),
        };
        proof {
            assert(result.tree().children =~= Seq::<Tree>::empty());
            lemma_trees(self.arguments.children@, self.arguments.children@.len());
        }
        result.add_children(self.arguments.children);
        result
    }
}

} // verus!
