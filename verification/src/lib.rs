//! Templates for lit-html: the data a template is rendered with, the events its
//! handlers receive, and the code generator behind the `template` attribute,
//! each with its contract and proofs.  Talking to the JavaScript side (creating objects,
//! registering callbacks, rendering) is left to the embedding program.

pub mod codegen;
pub mod data;
pub mod events;
pub mod text;

pub use codegen::{template, TemplateError};
pub use data::{CallbackHandle, JsObject, Template, TemplateData, TemplateValue};
pub use events::{InputElement, KeyEvent, KeyEventHandler, MouseEvent, MouseEventHandler};
