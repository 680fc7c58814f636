//! Which renderer an element's tag selects.
use vstd::prelude::*;
use crate::text::str_eq;

verus! {

/// The six heading levels.
#[derive(Debug, Clone, Copy, PartialEq, Eq, Structural)]
pub enum HeadingLevel {
    H1,
    H2,
    H3,
    H4,
    H5,
    H6,
}

/// The kinds of element that GPML renders, one per renderer; `Unknown`
/// tags are rendered as a `div`, with a warning.
#[derive(Debug, Clone, Copy, PartialEq, Eq, Structural)]
pub enum ElementKind {
    Div,
    Flex,
    Root,
    Article,
    Section,
    Aside,
    Nav,
    Header,
    Footer,
    Main,
    Heading(HeadingLevel),
    Paragraph,
    Text,
    Label,
    Span,
    Strong,
    Em,
    Underline,
    Strikethrough,
    Code,
    Pre,
    Cite,
    Mark,
    Small,
    Sub,
    Sup,
    Ul,
    Ol,
    Li,
    Dl,
    Dt,
    Dd,
    Link,
    Img,
    Table,
    Thead,
    Tbody,
    Tfoot,
    Tr,
    Td,
    Th,
    Caption,
    Form,
    Fieldset,
    Legend,
    Textarea,
    Blockquote,
    Q,
    Br,
    Hr,
    Button,
    Input,
    Checkbox,
    Radio,
    Slider,
    Switch,
    Modal,
    Popover,
    Tooltip,
    Scroll,
    Resizable,
    Icon,
    Image,
    Badge,
    Avatar,
    List,
    Tree,
    Noop,
    Unknown,
}

/// The kind of element that a tag selects: the tags below, with `b` and
/// `strong`, `i` and `em` alike, and `script`, `style`, `meta`, `link`,
/// `base` rendered as nothing.
pub open spec fn kind_of_tag(tag: Seq<char>) -> ElementKind {
    if tag == "div"@ {
        ElementKind::Div
    } else if tag == "flex"@ {
        ElementKind::Flex
    } else if tag == "root"@ {
        ElementKind::Root
    } else if tag == "article"@ {
        ElementKind::Article
    } else if tag == "section"@ {
        ElementKind::Section
    } else if tag == "aside"@ {
        ElementKind::Aside
    } else if tag == "nav"@ {
        ElementKind::Nav
    } else if tag == "header"@ {
        ElementKind::Header
    } else if tag == "footer"@ {
        ElementKind::Footer
    } else if tag == "main"@ {
        ElementKind::Main
    } else if tag == "h1"@ {
        ElementKind::Heading(HeadingLevel::H1)
    } else if tag == "h2"@ {
        ElementKind::Heading(HeadingLevel::H2)
    } else if tag == "h3"@ {
        ElementKind::Heading(HeadingLevel::H3)
    } else if tag == "h4"@ {
        ElementKind::Heading(HeadingLevel::H4)
    } else if tag == "h5"@ {
        ElementKind::Heading(HeadingLevel::H5)
    } else if tag == "h6"@ {
        ElementKind::Heading(HeadingLevel::H6)
    } else if tag == "p"@ {
        ElementKind::Paragraph
    } else if tag == "text"@ {
        ElementKind::Text
    } else if tag == "label"@ {
        ElementKind::Label
    } else if tag == "span"@ {
        ElementKind::Span
    } else if tag == "strong"@ {
        ElementKind::Strong
    } else if tag == "b"@ {
        ElementKind::Strong
    } else if tag == "em"@ {
        ElementKind::Em
    } else if tag == "i"@ {
        ElementKind::Em
    } else if tag == "u"@ {
        ElementKind::Underline
    } else if tag == "s"@ {
        ElementKind::Strikethrough
    } else if tag == "code"@ {
        ElementKind::Code
    } else if tag == "pre"@ {
        ElementKind::Pre
    } else if tag == "cite"@ {
        ElementKind::Cite
    } else if tag == "mark"@ {
        ElementKind::Mark
    } else if tag == "small"@ {
        ElementKind::Small
    } else if tag == "sub"@ {
        ElementKind::Sub
    } else if tag == "sup"@ {
        ElementKind::Sup
    } else if tag == "ul"@ {
        ElementKind::Ul
    } else if tag == "ol"@ {
        ElementKind::Ol
    } else if tag == "li"@ {
        ElementKind::Li
    } else if tag == "dl"@ {
        ElementKind::Dl
    } else if tag == "dt"@ {
        ElementKind::Dt
    } else if tag == "dd"@ {
        ElementKind::Dd
    } else if tag == "a"@ {
        ElementKind::Link
    } else if tag == "img"@ {
        ElementKind::Img
    } else if tag == "table"@ {
        ElementKind::Table
    } else if tag == "thead"@ {
        ElementKind::Thead
    } else if tag == "tbody"@ {
        ElementKind::Tbody
    } else if tag == "tfoot"@ {
        ElementKind::Tfoot
    } else if tag == "tr"@ {
        ElementKind::Tr
    } else if tag == "td"@ {
        ElementKind::Td
    } else if tag == "th"@ {
        ElementKind::Th
    } else if tag == "caption"@ {
        ElementKind::Caption
    } else if tag == "form"@ {
        ElementKind::Form
    } else if tag == "fieldset"@ {
        ElementKind::Fieldset
    } else if tag == "legend"@ {
        ElementKind::Legend
    } else if tag == "textarea"@ {
        ElementKind::Textarea
    } else if tag == "blockquote"@ {
        ElementKind::Blockquote
    } else if tag == "q"@ {
        ElementKind::Q
    } else if tag == "br"@ {
        ElementKind::Br
    } else if tag == "hr"@ {
        ElementKind::Hr
    } else if tag == "button"@ {
        ElementKind::Button
    } else if tag == "input"@ {
        ElementKind::Input
    } else if tag == "checkbox"@ {
        ElementKind::Checkbox
    } else if tag == "radio"@ {
        ElementKind::Radio
    } else if tag == "slider"@ {
        ElementKind::Slider
    } else if tag == "switch"@ {
        ElementKind::Switch
    } else if tag == "modal"@ {
        ElementKind::Modal
    } else if tag == "popover"@ {
        ElementKind::Popover
    } else if tag == "tooltip"@ {
        ElementKind::Tooltip
    } else if tag == "scroll"@ {
        ElementKind::Scroll
    } else if tag == "resizable"@ {
        ElementKind::Resizable
    } else if tag == "icon"@ {
        ElementKind::Icon
    } else if tag == "image"@ {
        ElementKind::Image
    } else if tag == "badge"@ {
        ElementKind::Badge
    } else if tag == "avatar"@ {
        ElementKind::Avatar
    } else if tag == "list"@ {
        ElementKind::List
    } else if tag == "tree"@ {
        ElementKind::Tree
    } else if tag == "script"@ {
        ElementKind::Noop
    } else if tag == "style"@ {
        ElementKind::Noop
    } else if tag == "meta"@ {
        ElementKind::Noop
    } else if tag == "link"@ {
        ElementKind::Noop
    } else if tag == "base"@ {
        ElementKind::Noop
    } else {
        ElementKind::Unknown
    }
}

/// Renders GPML elements.
pub struct GPMLRenderer;

impl GPMLRenderer {
    /// The kind of element, and so the renderer, that `tag` selects.
    pub fn element_kind(tag: &str) -> (k: ElementKind)
        ensures
            k == kind_of_tag(tag@),
    {
        if str_eq(tag, "div") {
            ElementKind::Div
        } else if str_eq(tag, "flex") {
            ElementKind::Flex
        } else if str_eq(tag, "root") {
            ElementKind::Root
        } else if str_eq(tag, "article") {
            ElementKind::Article
        } else if str_eq(tag, "section") {
            ElementKind::Section
        } else if str_eq(tag, "aside") {
            ElementKind::Aside
        } else if str_eq(tag, "nav") {
            ElementKind::Nav
        } else if str_eq(tag, "header") {
            ElementKind::Header
        } else if str_eq(tag, "footer") {
            ElementKind::Footer
        } else if str_eq(tag, "main") {
            ElementKind::Main
        } else if str_eq(tag, "h1") {
            ElementKind::Heading(HeadingLevel::H1)
        } else if str_eq(tag, "h2") {
            ElementKind::Heading(HeadingLevel::H2)
        } else if str_eq(tag, "h3") {
            ElementKind::Heading(HeadingLevel::H3)
        } else if str_eq(tag, "h4") {
            ElementKind::Heading(HeadingLevel::H4)
        } else if str_eq(tag, "h5") {
            ElementKind::Heading(HeadingLevel::H5)
        } else if str_eq(tag, "h6") {
            ElementKind::Heading(HeadingLevel::H6)
        } else if str_eq(tag, "p") {
            ElementKind::Paragraph
        } else if str_eq(tag, "text") {
            ElementKind::Text
        } else if str_eq(tag, "label") {
            ElementKind::Label
        } else if str_eq(tag, "span") {
            ElementKind::Span
        } else if str_eq(tag, "strong") {
            ElementKind::Strong
        } else if str_eq(tag, "b") {
            ElementKind::Strong
        } else if str_eq(tag, "em") {
            ElementKind::Em
        } else if str_eq(tag, "i") {
            ElementKind::Em
        } else if str_eq(tag, "u") {
            ElementKind::Underline
        } else if str_eq(tag, "s") {
            ElementKind::Strikethrough
        } else if str_eq(tag, "code") {
            ElementKind::Code
        } else if str_eq(tag, "pre") {
            ElementKind::Pre
        } else if str_eq(tag, "cite") {
            ElementKind::Cite
        } else if str_eq(tag, "mark") {
            ElementKind::Mark
        } else if str_eq(tag, "small") {
            ElementKind::Small
        } else if str_eq(tag, "sub") {
            ElementKind::Sub
        } else if str_eq(tag, "sup") {
            ElementKind::Sup
        } else if str_eq(tag, "ul") {
            ElementKind::Ul
        } else if str_eq(tag, "ol") {
            ElementKind::Ol
        } else if str_eq(tag, "li") {
            ElementKind::Li
        } else if str_eq(tag, "dl") {
            ElementKind::Dl
        } else if str_eq(tag, "dt") {
            ElementKind::Dt
        } else if str_eq(tag, "dd") {
            ElementKind::Dd
        } else if str_eq(tag, "a") {
            ElementKind::Link
        } else if str_eq(tag, "img") {
            ElementKind::Img
        } else if str_eq(tag, "table") {
            ElementKind::Table
        } else if str_eq(tag, "thead") {
            ElementKind::Thead
        } else if str_eq(tag, "tbody") {
            ElementKind::Tbody
        } else if str_eq(tag, "tfoot") {
            ElementKind::Tfoot
        } else if str_eq(tag, "tr") {
            ElementKind::Tr
        } else if str_eq(tag, "td") {
            ElementKind::Td
        } else if str_eq(tag, "th") {
            ElementKind::Th
        } else if str_eq(tag, "caption") {
            ElementKind::Caption
        } else if str_eq(tag, "form") {
            ElementKind::Form
        } else if str_eq(tag, "fieldset") {
            ElementKind::Fieldset
        } else if str_eq(tag, "legend") {
            ElementKind::Legend
        } else if str_eq(tag, "textarea") {
            ElementKind::Textarea
        } else if str_eq(tag, "blockquote") {
            ElementKind::Blockquote
        } else if str_eq(tag, "q") {
            ElementKind::Q
        } else if str_eq(tag, "br") {
            ElementKind::Br
        } else if str_eq(tag, "hr") {
            ElementKind::Hr
        } else if str_eq(tag, "button") {
            ElementKind::Button
        } else if str_eq(tag, "input") {
            ElementKind::Input
        } else if str_eq(tag, "checkbox") {
            ElementKind::Checkbox
        } else if str_eq(tag, "radio") {
            ElementKind::Radio
        } else if str_eq(tag, "slider") {
            ElementKind::Slider
        } else if str_eq(tag, "switch") {
            ElementKind::Switch
        } else if str_eq(tag, "modal") {
            ElementKind::Modal
        } else if str_eq(tag, "popover") {
            ElementKind::Popover
        } else if str_eq(tag, "tooltip") {
            ElementKind::Tooltip
        } else if str_eq(tag, "scroll") {
            ElementKind::Scroll
        } else if str_eq(tag, "resizable") {
            ElementKind::Resizable
        } else if str_eq(tag, "icon") {
            ElementKind::Icon
        } else if str_eq(tag, "image") {
            ElementKind::Image
        } else if str_eq(tag, "badge") {
            ElementKind::Badge
        } else if str_eq(tag, "avatar") {
            ElementKind::Avatar
        } else if str_eq(tag, "list") {
            ElementKind::List
        } else if str_eq(tag, "tree") {
            ElementKind::Tree
        } else if str_eq(tag, "script") {
            ElementKind::Noop
        } else if str_eq(tag, "style") {
            ElementKind::Noop
        } else if str_eq(tag, "meta") {
            ElementKind::Noop
        } else if str_eq(tag, "link") {
            ElementKind::Noop
        } else if str_eq(tag, "base") {
            ElementKind::Noop
        } else {
            ElementKind::Unknown
        }
    }
}

} // verus!
