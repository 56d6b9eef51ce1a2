use lox_rs::stack::Stack;

#[test]
fn test_stack() {
    let mut stack: Stack<i32> = Stack::new();
    stack.push(1);
    stack.push(2);
    assert_eq!(stack.pop().unwrap(), 2);
    assert_eq!(stack.pop().unwrap(), 1);

    assert!(stack.peek(0).is_none());
    stack.push(5);
    stack.push(3);
    assert_eq!(stack.peek(0).unwrap(), &3);
    assert_eq!(stack.peek(1).unwrap(), &5);
}

#[test]
fn stack_slots_are_absolute() {
    let mut stack: Stack<i32> = Stack::new();
    stack.push(10);
    stack.push(20);
    stack.push(30);
    assert_eq!(stack.get(0).unwrap(), &10);
    assert_eq!(stack.get(2).unwrap(), &30);
    assert!(stack.get(3).is_none());
    assert!(stack.set(1, 25));
    assert_eq!(stack.get(1).unwrap(), &25);
    assert_eq!(stack.len(), 3);
    stack.reset();
    assert_eq!(stack.len(), 0);
}
