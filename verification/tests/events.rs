use lit_html::{InputElement, JsObject, KeyEvent, KeyEventHandler, MouseEvent, MouseEventHandler};

#[test]
fn key_event_reads_back() {
    let e = KeyEvent::new(JsObject { handle: 4 }, 13);
    assert_eq!(e.key_code(), 13);
    assert_eq!(e.object(), JsObject { handle: 4 });
}

#[test]
fn mouse_event_reads_back() {
    let e = MouseEvent::new(JsObject { handle: 2 });
    assert_eq!(e.object(), JsObject { handle: 2 });
}

#[test]
fn key_handler_keeps_its_closure() {
    let h = KeyEventHandler::new(|e: KeyEvent| assert_eq!(e.key_code(), 13));
    let mut f = h.into_handler();
    f(KeyEvent::new(JsObject { handle: 0 }, 13));
}

#[test]
fn mouse_handler_keeps_its_closure() {
    let h = MouseEventHandler::new(|e: MouseEvent| assert_eq!(e.object().handle, 8));
    let mut f = h.into_handler();
    f(MouseEvent::new(JsObject { handle: 8 }));
}

#[test]
fn input_element_from_object() {
    let el = InputElement::from(JsObject { handle: 5 });
    assert_eq!(el.object(), JsObject { handle: 5 });
}
