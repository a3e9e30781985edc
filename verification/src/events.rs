//! Browser events and the handlers that receive them.
//!
//! An event is given to Rust as a handle to the JavaScript event object, and,
//! for a key event, the key code read from it.

use vstd::prelude::*;
use crate::data::JsObject;

verus! {

/// A keyboard event: the JavaScript event object and its `keyCode`.
///
/// An event's `keyCode` does not change, so it is read once, when the event
/// arrives.  Its target is not kept here: each read of it stores a new
/// reference on the JavaScript side, which is the host's work.
pub struct KeyEvent {
    obj: JsObject,
    key_code: usize,
}

impl KeyEvent {
    /// The event behind the object `obj`, whose `keyCode` is `key_code`.
    pub fn new(obj: JsObject, key_code: usize) -> (e: KeyEvent)
        ensures
            e.object_spec() == obj,
            e.key_code_spec() == key_code,
    {
        KeyEvent { obj, key_code }
    }

    pub closed spec fn object_spec(self) -> JsObject {
        self.obj
    }

    pub closed spec fn key_code_spec(self) -> usize {
        self.key_code
    }

    /// The JavaScript object of the event.
    pub fn object(&self) -> (o: JsObject)
        ensures
            o == self.object_spec(),
    {
        self.obj
    }

    /// The `keyCode` of the event.
    pub fn key_code(&self) -> (k: usize)
        ensures
            k == self.key_code_spec(),
    {
        self.key_code
    }
}

/// A mouse event: the JavaScript event object.  Its target is read on the
/// JavaScript side, as for key events.
pub struct MouseEvent {
    obj: JsObject,
}

impl MouseEvent {
    /// The event behind the object `obj`.
    pub fn new(obj: JsObject) -> (e: MouseEvent)
        ensures
            e.object_spec() == obj,
    {
        MouseEvent { obj }
    }

    pub closed spec fn object_spec(self) -> JsObject {
        self.obj
    }

    /// The JavaScript object of the event.
    pub fn object(&self) -> (o: JsObject)
        ensures
            o == self.object_spec(),
    {
        self.obj
    }
}

/// A closure to run on each key event of an element.
pub struct KeyEventHandler<F> {
    handler: F,
}

impl<F: FnMut(KeyEvent) + Send + Sync + 'static> KeyEventHandler<F> {
    /// Wraps `f`.
    pub fn new(f: F) -> (h: KeyEventHandler<F>)
        ensures
            h.handler_spec() == f,
    {
        KeyEventHandler { handler: f }
    }

    pub closed spec fn handler_spec(self) -> F {
        self.handler
    }

    /// The wrapped closure, to be registered as a callback.
    pub fn into_handler(self) -> (f: F)
        ensures
            f == self.handler_spec(),
    {
        self.handler
    }
}

/// A closure to run on each mouse event of an element.
pub struct MouseEventHandler<F> {
    handler: F,
}

impl<F: FnMut(MouseEvent) + Send + Sync + 'static> MouseEventHandler<F> {
    /// Wraps `f`.
    pub fn new(f: F) -> (h: MouseEventHandler<F>)
        ensures
            h.handler_spec() == f,
    {
        MouseEventHandler { handler: f }
    }

    pub closed spec fn handler_spec(self) -> F {
        self.handler
    }

    /// The wrapped closure, to be registered as a callback.
    pub fn into_handler(self) -> (f: F)
        ensures
            f == self.handler_spec(),
    {
        self.handler
    }
}

/// An `<input>` element.
pub struct InputElement {
    obj: JsObject,
}

impl InputElement {
    /// The input element behind the object `o`.
    pub fn from(o: JsObject) -> (e: InputElement)
        ensures
            e.object_spec() == o,
    {
        InputElement { obj: o }
    }

    pub closed spec fn object_spec(self) -> JsObject {
        self.obj
    }

    /// The JavaScript object of the element.
    pub fn object(&self) -> (o: JsObject)
        ensures
            o == self.object_spec(),
    {
        self.obj
    }
}

} // verus!
