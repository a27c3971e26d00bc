use containers::stack::myStack;

#[test]
fn test_queue() {
    let mut s = myStack::<i32>::new();
    assert_eq!(s.pop(), Err("Stack is empty"));
    s.push(1);
    s.push(2);
    s.push(3);
    assert_eq!(s.pop(), Ok(3));
    assert_eq!(s.pop(), Ok(2));
    s.push(4);
    s.push(5);
    assert_eq!(s.is_empty(), false);
    assert_eq!(s.pop(), Ok(5));
    assert_eq!(s.pop(), Ok(4));
    assert_eq!(s.pop(), Ok(1));
    assert_eq!(s.pop(), Err("Stack is empty"));
    assert_eq!(s.is_empty(), true);
}

#[test]
fn new_stack_is_empty() {
    let s = myStack::<u8>::new();
    assert!(s.is_empty());
}

#[test]
fn pop_on_empty_leaves_it_empty() {
    let mut s = myStack::<u8>::new();
    assert_eq!(s.pop(), Err("Stack is empty"));
    assert_eq!(s.pop(), Err("Stack is empty"));
    assert!(s.is_empty());
    s.push(8);
    assert_eq!(s.pop(), Ok(8));
}

#[test]
fn single_element_comes_straight_back() {
    let mut s = myStack::new();
    s.push("only");
    assert!(!s.is_empty());
    assert_eq!(s.pop(), Ok("only"));
    assert!(s.is_empty());
}

#[test]
fn pops_reverse_the_pushes() {
    let mut s = myStack::new();
    let pushed = [10, 20, 30, 40, 50, 60, 70];
    for v in pushed {
        s.push(v);
    }
    for v in pushed.iter().rev() {
        assert_eq!(s.pop(), Ok(*v));
    }
    assert!(s.is_empty());
    assert_eq!(s.pop(), Err("Stack is empty"));
}

#[test]
fn push_after_each_pop_lands_on_top() {
    let mut s = myStack::new();
    s.push(1);
    s.push(2);
    assert_eq!(s.pop(), Ok(2));
    s.push(3);
    assert_eq!(s.pop(), Ok(3));
    s.push(4);
    s.push(5);
    assert_eq!(s.pop(), Ok(5));
    s.push(6);
    assert_eq!(s.pop(), Ok(6));
    assert_eq!(s.pop(), Ok(4));
    assert_eq!(s.pop(), Ok(1));
    assert!(s.is_empty());
}

#[test]
fn equal_elements_are_kept_apart() {
    let mut s = myStack::new();
    s.push((1, 'a'));
    s.push((1, 'b'));
    s.push((1, 'a'));
    assert_eq!(s.pop(), Ok((1, 'a')));
    assert_eq!(s.pop(), Ok((1, 'b')));
    assert_eq!(s.pop(), Ok((1, 'a')));
    assert!(s.is_empty());
}

#[test]
fn deep_stack_unwinds_in_reverse() {
    let mut s = myStack::new();
    for v in 0..200u32 {
        s.push(v);
    }
    for v in (0..200u32).rev() {
        assert_eq!(s.pop(), Ok(v));
    }
    assert!(s.is_empty());
}
