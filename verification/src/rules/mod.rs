//! Conversion rules for HTML elements: one rule owns each family of tags,
//! and the converter dispatches to the rule for an element's tag.

mod blockquote;
mod br;
mod code;
mod deflist;
mod details;
mod emphasis;
mod figure;
mod heading;
mod hr;
mod image;
mod link;
mod list;
mod paragraph;
mod passthrough;
mod pre;
mod strikethrough;
mod subscript;
mod superscript;
mod table;

pub use blockquote::BlockquoteRule;
pub use br::BreakRule;
pub use code::CodeRule;
pub use deflist::{DefDescRule, DefListRule, DefTermRule};
pub use details::DetailsRule;
pub use emphasis::{EmphasisRule, StrongRule};
pub use figure::FigureRule;
pub use heading::HeadingRule;
pub use hr::HorizontalRule;
pub use image::ImageRule;
pub use link::LinkRule;
pub use list::{ListItemRule, ListRule};
pub use paragraph::ParagraphRule;
pub use passthrough::{AbbrRule, KbdRule, MarkRule, SampRule, VarRule};
pub use pre::PreRule;
pub use strikethrough::StrikethroughRule;
pub use subscript::SubscriptRule;
pub use superscript::SuperscriptRule;
pub use table::TableRule;
