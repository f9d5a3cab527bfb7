use vstd::prelude::*;

use crate::component_content::ComponentContent;
use crate::strs::push_str;
use crate::component_model::{
    component_models, empty_style_model, text_model, ComponentModel, ContentModel,
};
use crate::style::{empty_style, Style};

verus! {

/// A piece of formatted text, as the client understands it.
///
/// A component carries content, a style, and children that inherit that style. This
/// mirrors the shape the protocol serializes rather than any particular Rust
/// convenience, because the exact bytes a client receives are what has to be right.
#[derive(Debug, PartialEq)]
pub struct Component {
    pub content: ComponentContent,
    pub style: Style,
    pub children: Vec<Component>,
}

/// The literal text a component carries itself: empty for translation keys and keybinds.
pub open spec fn own_text(component: Component) -> Seq<char> {
    match component.content {
        ComponentContent::Text { text } => text@,
        _ => Seq::empty(),
    }
}

/// The text a component and its descendants render to, with all styling dropped.
pub open spec fn plain_text(component: Component) -> Seq<char>
    decreases component,
{
    own_text(component) + plain_text_of_all(component.children@)
}

/// The plain texts of several components, one after another.
pub open spec fn plain_text_of_all(components: Seq<Component>) -> Seq<char>
    decreases components,
{
    if components.len() == 0 {
        Seq::empty()
    } else {
        plain_text_of_all(components.drop_last()) + plain_text(components.last())
    }
}

impl Component {
    pub fn new(content: ComponentContent, style: Style, children: Vec<Component>) -> (component:
        Component)
        ensures
            component == (Component { content, style, children }),
    {
        Component { content, style, children }
    }

    /// Unstyled literal text with no children.
    pub fn text(text: &str) -> (component: Component)
        ensures
            component.content matches ComponentContent::Text { text: own } && own@ == text@,
            component.style == empty_style(),
            component.children@.len() == 0,
            component@ == text_model(text@),
    {
        let component = Component::new(
            ComponentContent::Text { text: text.to_owned() },
            Style::empty(),
            Vec::new(),
        );
        proof {
            assert(component_models(component.children@) =~= Seq::empty());
        }
        component
    }

    /// The empty component, which serializes as text with an empty string rather than
    /// as an absent value.
    pub fn empty() -> (component: Component)
        ensures
            component.content matches ComponentContent::Text { text: own } && own@ == Seq::<
                char,
            >::empty(),
            component.style == empty_style(),
            component.children@.len() == 0,
            component@ == text_model(Seq::empty()),
    {
        let component = Component::new(
            ComponentContent::Text { text: String::new() },
            Style::empty(),
            Vec::new(),
        );
        proof {
            assert(component_models(component.children@) =~= Seq::empty());
        }
        component
    }

    pub fn keybind(keybind: &str) -> (component: Component)
        ensures
            component.content matches ComponentContent::Keybind { keybind: own } && own@
                == keybind@,
            component.style == empty_style(),
            component.children@.len() == 0,
            component@ == (ComponentModel {
                content: ContentModel::Keybind(keybind@),
                style: empty_style_model(),
                children: Seq::empty(),
            }),
    {
        let component = Component::new(
            ComponentContent::Keybind { keybind: keybind.to_owned() },
            Style::empty(),
            Vec::new(),
        );
        proof {
            assert(component_models(component.children@) =~= Seq::empty());
        }
        component
    }

    pub fn translatable(key: &str, arguments: Vec<Component>) -> (component: Component)
        ensures
            component.content matches ComponentContent::Translatable { key: own, arguments: args }
                && own@ == key@ && args == arguments,
            component.style == empty_style(),
            component.children@.len() == 0,
            component@ == (ComponentModel {
                content: ContentModel::Translatable(key@, component_models(arguments@)),
                style: empty_style_model(),
                children: Seq::empty(),
            }),
    {
        let component = Component::new(
            ComponentContent::Translatable { key: key.to_owned(), arguments },
            Style::empty(),
            Vec::new(),
        );
        proof {
            assert(component_models(component.children@) =~= Seq::empty());
        }
        component
    }

    /// The text this component and its descendants render to, with all styling dropped.
    ///
    /// Translation keys and keybinds contribute nothing, because resolving them needs the
    /// client's language.
    pub fn to_plain_text(&self) -> (plain: String)
        ensures
            plain@ == plain_text(*self),
    {
        let mut plain = String::new();
        self.append_plain_text(&mut plain);
        plain
    }

    fn append_plain_text(&self, target: &mut String)
        ensures
            final(target)@ == old(target)@ + plain_text(*self),
        decreases self,
    {
        if let ComponentContent::Text { text } = &self.content {
            push_str(target, text.as_str());
        }
        let mut index: usize = 0;
        while index < self.children.len()
            invariant
                0 <= index <= self.children@.len(),
                target@ == old(target)@ + own_text(*self) + plain_text_of_all(
                    self.children@.take(index as int),
                ),
            decreases self.children@.len() - index,
        {
            proof {
                assert(self.children@.take(index + 1).drop_last() =~= self.children@.take(
                    index as int,
                ));
            }
            self.children[index].append_plain_text(target);
            index += 1;
        }
        proof {
            assert(self.children@.take(self.children@.len() as int) =~= self.children@);
        }
    }
}

} // verus!
