use pallet_exchange::arithmetic::SimpleArithmetic;

fn sum_of<T: SimpleArithmetic + Copy>(a: T, b: T) -> T {
    a + b
}

#[test]
fn unsigned_integers_are_simple_arithmetic() {
    assert_eq!(sum_of(2u32, 3u32), 5);
    assert_eq!(sum_of(2u64, 3u64), 5);
    assert_eq!(sum_of(2u128, 3u128), 5);
}
