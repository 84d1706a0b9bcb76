use exercises::adder::add_one;
use rand::Rng;

#[test]
fn it_works() {
    let random_num = rand::thread_rng().gen_range(-100..=100);
    assert_eq!(random_num + 1, add_one(random_num));
}

#[test]
fn adds_one_at_edges() {
    assert_eq!(add_one(0), 1);
    assert_eq!(add_one(-1), 0);
    assert_eq!(add_one(i32::MAX - 1), i32::MAX);
}
