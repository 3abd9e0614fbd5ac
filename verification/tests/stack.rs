use esta::util::stack::Stack;

#[test]
fn stack_core() {
    let mut stack: Stack<usize> = Stack::new();
    stack.push(0);
    stack.push(1);
    assert_eq!(stack.pop(), Some(1));
    assert_eq!(stack.pop(), Some(0));
    assert_eq!(stack.pop(), None);
}

#[test]
fn iter() {
    let mut stack: Stack<usize> = Stack::new();
    stack.push(0);
    stack.push(1);

    let mut iter = stack.iter();
    assert_eq!(iter.next(), Some(&1));
    assert_eq!(iter.next(), Some(&0));
    assert_eq!(iter.next(), None);
}

#[test]
fn top_sees_the_last_push_and_keeps_it() {
    let mut stack: Stack<i64> = Stack::new();
    assert_eq!(stack.top(), None);
    stack.push(7);
    stack.push(8);
    assert_eq!(stack.top(), Some(&8));
    assert_eq!(stack.len(), 2);
    *stack.top_mut() = 9;
    assert_eq!(stack.get(0), &7);
    assert_eq!(stack.pop(), Some(9));
}
