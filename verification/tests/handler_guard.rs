use fizzle::hooks::{post_hook, pre_hook, HandlerFlag};

#[test]
fn nested_calls_are_not_intercepted() {
    let mut flag = HandlerFlag::new();
    assert!(pre_hook(&mut flag));
    assert!(flag.entered);
    assert!(!pre_hook(&mut flag));
    assert!(flag.entered);
    post_hook(&mut flag);
    assert!(!flag.entered);
    assert!(pre_hook(&mut flag));
}
