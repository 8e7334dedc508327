use lang::common::ScopeMethods;

#[test]
fn scope_gives_the_closure_result() {
    assert_eq!(5u32.scope(|x| *x + 1), 6);
    assert_eq!(vec![1, 2, 3].scope_mut(|v| {
        v.push(4);
        v.len()
    }), 4);
}

#[test]
fn also_gives_the_value_back() {
    let mut seen = 0;
    let v = 7u8.also(|x| seen = *x as i32);
    assert_eq!(v, 7);
    assert_eq!(seen, 7);
    let w = vec![1].also_mut(|v| v.push(2));
    assert_eq!(w, vec![1, 2]);
}
