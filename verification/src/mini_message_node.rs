use vstd::prelude::*;

use crate::strs::chars_of;

verus! {

/// One node of a parsed MiniMessage document.
///
/// The format is a tree of tags around literal text, so parsing happens in two passes:
/// first into this shape, then into components. Tags such as `<gradient>` need to see all
/// the text they enclose before they can colour any of it, which a single streaming pass
/// cannot do.
#[derive(Debug, PartialEq)]
pub enum MiniMessageNode {
    Text { text: String },
    Tag {
        name: String,
        arguments: Vec<String>,
        /// The tag exactly as written, so an unrecognised one can be shown literally
        /// instead of vanishing.
        raw: String,
        children: Vec<MiniMessageNode>,
    },
}

/// The mathematical content of a [`MiniMessageNode`].
pub enum NodeModel {
    Text(Seq<char>),
    /// Name, arguments, the tag as written, and the enclosed nodes.
    Tag(Seq<char>, Seq<Seq<char>>, Seq<char>, Seq<NodeModel>),
}

pub open spec fn strings_model(strings: Seq<String>) -> Seq<Seq<char>> {
    strings.map_values(|s: String| s@)
}

pub open spec fn node_model(node: MiniMessageNode) -> NodeModel
    decreases node,
{
    match node {
        MiniMessageNode::Text { text } => NodeModel::Text(text@),
        MiniMessageNode::Tag { name, arguments, raw, children } => NodeModel::Tag(
            name@,
            strings_model(arguments@),
            raw@,
            node_models(children@),
        ),
    }
}

pub open spec fn node_models(nodes: Seq<MiniMessageNode>) -> Seq<NodeModel>
    decreases nodes,
{
    if nodes.len() == 0 {
        Seq::empty()
    } else {
        node_models(nodes.drop_last()).push(node_model(nodes.last()))
    }
}

impl View for MiniMessageNode {
    type V = NodeModel;

    open spec fn view(&self) -> NodeModel {
        node_model(*self)
    }
}

/// The number of characters of literal text a node and its descendants contribute.
pub open spec fn node_text_length(node: NodeModel) -> nat
    decreases node,
{
    match node {
        NodeModel::Text(text) => text.len(),
        NodeModel::Tag(_, _, _, children) => nodes_text_length(children),
    }
}

/// The literal text length of several nodes together.
pub open spec fn nodes_text_length(nodes: Seq<NodeModel>) -> nat
    decreases nodes,
{
    if nodes.len() == 0 {
        0
    } else {
        nodes_text_length(nodes.drop_last()) + node_text_length(nodes.last())
    }
}

/// The model of a prefix of a node list is the prefix of its model.
pub proof fn lemma_node_models_take(nodes: Seq<MiniMessageNode>, n: int)
    requires
        0 <= n <= nodes.len(),
    ensures
        node_models(nodes).len() == nodes.len(),
        node_models(nodes.take(n)) == node_models(nodes).take(n),
        forall|i: int| 0 <= i < nodes.len() ==> #[trigger] node_models(nodes)[i] == node_model(
            nodes[i],
        ),
    decreases nodes.len(),
{
    if nodes.len() > 0 {
        lemma_node_models_take(nodes.drop_last(), if n == nodes.len() {
            n - 1
        } else {
            n
        });
        if n == nodes.len() {
            assert(nodes.take(n) =~= nodes);
            assert(node_models(nodes).take(n) =~= node_models(nodes));
        } else {
            assert(nodes.take(n) =~= nodes.drop_last().take(n));
            assert(node_models(nodes).take(n) =~= node_models(nodes.drop_last()).take(n));
        }
        assert forall|i: int| 0 <= i < nodes.len() implies #[trigger] node_models(nodes)[i]
            == node_model(nodes[i]) by {
            if i < nodes.len() - 1 {
                assert(nodes.drop_last()[i] == nodes[i]);
            }
        }
    } else {
        assert(nodes.take(n) =~= nodes);
    }
}

impl MiniMessageNode {
    /// The literal text this node and its descendants contribute, ignoring styling.
    ///
    /// Colour-spreading tags need this up front to know how far to spread.
    pub fn text_length(&self) -> (length: usize)
        requires
            node_text_length(self@) <= usize::MAX,
        ensures
            length == node_text_length(self@),
        decreases self,
    {
        match self {
            MiniMessageNode::Text { text } => chars_of(text.as_str()).len(),
            MiniMessageNode::Tag { children, .. } => {
                proof {
                    lemma_node_models_take(children@, 0);
                }
                let mut total: usize = 0;
                let mut index: usize = 0;
                while index < children.len()
                    invariant
                        0 <= index <= children@.len(),
                        node_text_length(self@) <= usize::MAX,
                        self@ == node_model(*self),
                        *self matches MiniMessageNode::Tag { children: c, .. } && c == *children,
                        total == nodes_text_length(node_models(children@).take(index as int)),
                    decreases children@.len() - index,
                {
                    proof {
                        lemma_node_models_take(children@, index as int);
                        lemma_node_models_take(children@, index + 1);
                        let models = node_models(children@);
                        assert(models.take(index + 1).drop_last() =~= models.take(index as int));
                        assert(models.take(index + 1).last() == node_model(children@[index as int]));
                        lemma_prefix_length_bounded(models, index + 1);
                    }
                    let length = children[index].text_length();
                    total = total + length;
                    index += 1;
                }
                proof {
                    lemma_node_models_take(children@, index as int);
                    assert(node_models(children@).take(index as int) =~= node_models(children@));
                }
                total
            },
        }
    }
}

/// The text length of a prefix never exceeds that of the whole list.
pub proof fn lemma_prefix_length_bounded(nodes: Seq<NodeModel>, n: int)
    requires
        0 <= n <= nodes.len(),
    ensures
        nodes_text_length(nodes.take(n)) <= nodes_text_length(nodes),
    decreases nodes.len(),
{
    if n < nodes.len() {
        assert(nodes.drop_last().take(n) =~= nodes.take(n));
        lemma_prefix_length_bounded(nodes.drop_last(), n);
    } else {
        assert(nodes.take(n) =~= nodes);
    }
}

} // verus!
