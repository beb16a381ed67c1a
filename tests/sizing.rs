use textyle::layout::geometry::Rect;
use textyle::layout::sizing::{distribute_space, ItemSizing, Sizing};

#[test]
fn fit_static_is_exact() {
    let s = ItemSizing::new(Sizing::Static(3), Sizing::Static(4));
    let r = s.fit_into(&Rect::new(5, 6, 10, 1));
    assert_eq!(r, Rect::new(5, 6, 3, 4));
}

#[test]
fn fit_greedy_takes_larger_of_bound_and_minimum() {
    let s = ItemSizing::new(Sizing::Greedy(2), Sizing::Greedy(12));
    let r = s.fit_into(&Rect::new(-1, 0, 10, 10));
    assert_eq!(r, Rect::new(-1, 0, 10, 12));
}

#[test]
fn clamped_add_saturates() {
    let mut s = Sizing::Static(usize::MAX - 1);
    s.clamped_add(5);
    assert_eq!(s, Sizing::Static(usize::MAX));
    let mut g = Sizing::Greedy(4);
    g.clamped_add(3);
    assert_eq!(g, Sizing::Greedy(7));
}

#[test]
fn clamped_accumulate_turns_greedy() {
    let mut acc = Sizing::Static(3);
    acc.clamped_accumulate(&Sizing::Greedy(2));
    assert_eq!(acc, Sizing::Greedy(5));
    acc.clamped_accumulate(&Sizing::Static(4));
    assert_eq!(acc, Sizing::Greedy(9));
    let mut total = Sizing::Static(1);
    total.clamped_accumulate(&Sizing::Static(2));
    assert_eq!(total, Sizing::Static(3));
}

#[test]
fn min_content_size_of_both_variants() {
    assert_eq!(Sizing::Greedy(7).min_content_size(), 7);
    assert_eq!(Sizing::Static(9).min_content_size(), 9);
}

#[test]
fn three_greedy_children_share_ten() {
    let s = vec![Sizing::Greedy(0), Sizing::Greedy(0), Sizing::Greedy(0)];
    assert_eq!(distribute_space(&s, 10, 0), vec![3, 3, 4]);
}

#[test]
fn greedy_child_gets_what_statics_and_gaps_leave() {
    let s = vec![Sizing::Static(2), Sizing::Greedy(0), Sizing::Static(2)];
    assert_eq!(distribute_space(&s, 10, 2), vec![2, 4, 2]);
}

#[test]
fn greedy_minimum_is_kept_over_the_share() {
    let s = vec![Sizing::Greedy(5), Sizing::Greedy(0)];
    assert_eq!(distribute_space(&s, 4, 0), vec![5, 2]);
}

#[test]
fn no_greedy_children_means_nothing_to_share() {
    let s = vec![Sizing::Static(3), Sizing::Static(1)];
    assert_eq!(distribute_space(&s, 2, 0), vec![3, 1]);
    let empty: Vec<Sizing> = Vec::new();
    assert_eq!(distribute_space(&empty, 9, 0), Vec::<usize>::new());
}

#[test]
fn remainder_at_least_the_share_is_left_over() {
    let s = vec![Sizing::Greedy(0); 4];
    assert_eq!(distribute_space(&s, 5, 0), vec![1, 1, 1, 1]);
}

#[test]
fn overfull_stack_leaves_greedy_children_their_minimum() {
    let s = vec![Sizing::Static(8), Sizing::Greedy(1)];
    assert_eq!(distribute_space(&s, 5, 0), vec![8, 1]);
}
