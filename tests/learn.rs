#[test]
fn test_learn() {
    let vec = vec![1, 2, 3, 4, 5];
    println!("{:?}", vec.get(2))
}
