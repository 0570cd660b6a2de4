use oicq4r::event_1::AAA;
use std::cell::RefCell;
use std::rc::Rc;

#[test]
fn event_1_test() {
    let mut a: AAA<Box<dyn FnMut(usize)>> = AAA::new();

    let _ = a.on_a(
        Box::new(|v| {
            println!("once {}", v);
        }),
        true,
    );
    let p = a.on_a(
        Box::new(|v| {
            println!("un {}", v);
        }),
        false,
    );
    a.emit_a(5);
    a.un_a(p);
    a.emit_a(15);
}

#[test]
fn each_listener_keeps_its_own_function() {
    let seen = Rc::new(RefCell::new(Vec::new()));
    let mut a: AAA<Box<dyn FnMut(usize)>> = AAA::new();
    let s1 = Rc::clone(&seen);
    a.on_a(Box::new(move |v| s1.borrow_mut().push((1, v))), false);
    let s2 = Rc::clone(&seen);
    a.on_a(Box::new(move |v| s2.borrow_mut().push((2, v))), true);
    let s3 = Rc::clone(&seen);
    a.on_a(Box::new(move |v| s3.borrow_mut().push((3, v))), false);
    a.emit_a(5);
    a.emit_a(6);
    assert_eq!(*seen.borrow(), vec![(1, 5), (2, 5), (3, 5), (1, 6), (3, 6)]);
}
