use audio_stream::chonk::Chonk;

#[test]
fn basic_chonk() {
    let mut chonk = Chonk::<i32>::new(6);
    let slurp_excess = chonk.slurp(&mut vec![0, 1, 2, 3, 4, 5, 6, 7, 8, 9, 10, 11, 12]);
    println!("{:?}", &slurp_excess);
    println!("{:?}", &chonk);
    chonk.set_max_size(10);
    let (mut chonk, ploop_excess) = chonk.ploop(vec![0, 10, 20, 30, 40, 50]);
    println!("{:?}", &chonk);
    println!("{:?}", &ploop_excess);

    assert_eq!(chonk, Some(vec![0, 10, 20, 30, 40, 50, 0, 1, 2, 3]));
    assert_eq!(ploop_excess, Some(vec![4, 5]));

    chonk.set_max_size(32);
    let iter = std::iter::repeat(100);
    chonk.nom_iter(iter);
    println!("{:?}", &chonk);
    assert_eq!(chonk.len(), 32);

    for x in chonk.into_iter() {
        println!("{:?}", x);
    }
}

#[test]
fn slurp_hands_back_the_excess() {
    let mut chonk = Chonk::<i32>::new(6);
    let mut input = vec![0, 1, 2, 3, 4, 5, 6, 7, 8, 9, 10, 11, 12];
    let excess = chonk.slurp(&mut input);
    assert_eq!(excess, Some(vec![6, 7, 8, 9, 10, 11, 12]));
    assert_eq!(chonk, vec![0, 1, 2, 3, 4, 5]);
    assert!(input.is_empty());
}

#[test]
fn slurp_that_fits_returns_none() {
    let mut chonk = Chonk::<i32>::new(5);
    let mut first = vec![1, 2];
    let mut second = vec![3, 4, 5];
    assert_eq!(chonk.slurp(&mut first), None);
    assert_eq!(chonk.slurp(&mut second), None);
    assert_eq!(chonk, vec![1, 2, 3, 4, 5]);
    assert_eq!(chonk.len(), 5);
    assert!(first.is_empty() && second.is_empty());
}

#[test]
fn slurp_conserves_items() {
    let mut chonk = Chonk::from_with_max_size(vec![1, 2, 3], 4);
    let mut other = vec![4, 5, 6];
    let excess = chonk.slurp(&mut other).unwrap();
    let mut all: Vec<i32> = chonk.into_iter().collect();
    all.extend(excess);
    assert_eq!(all, vec![1, 2, 3, 4, 5, 6]);
}

#[test]
fn ploop_prepends_the_new_items() {
    let chonk = Chonk::from_with_max_size(vec![7, 8, 9], 5);
    let (chonk, excess) = chonk.ploop(vec![1, 2, 3]);
    assert_eq!(chonk, vec![1, 2, 3, 7, 8]);
    assert_eq!(excess, Some(vec![9]));
}

#[test]
fn ploop_that_fits_returns_none() {
    let chonk = Chonk::from_with_max_size(vec![7], 5);
    let (chonk, excess) = chonk.ploop(vec![1, 2]);
    assert_eq!(chonk, vec![1, 2, 7]);
    assert_eq!(excess, None);
}

#[test]
fn ploop_with_more_than_fits_keeps_the_front_of_the_new_items() {
    let chonk = Chonk::from_with_max_size(vec![7, 8], 2);
    let (chonk, excess) = chonk.ploop(vec![1, 2, 3]);
    assert_eq!(chonk, vec![1, 2]);
    assert_eq!(excess, Some(vec![3, 7, 8]));
}

#[test]
fn curtail_splits_off_the_end() {
    let mut chonk = Chonk::from_with_max_size(vec![1, 2, 3, 4, 5], 2);
    assert_eq!(chonk.curtail(), Some(vec![3, 4, 5]));
    assert_eq!(chonk, vec![1, 2]);
    assert_eq!(chonk.curtail(), None);
    assert_eq!(chonk, vec![1, 2]);
}

#[test]
fn curtail_at_exact_size_returns_none() {
    let mut chonk = Chonk::from_with_max_size(vec![1, 2, 3], 3);
    assert_eq!(chonk.curtail(), None);
    assert_eq!(chonk.len(), 3);
}

#[test]
fn curtail_to_zero_hands_back_everything() {
    let mut chonk = Chonk::from_with_max_size(vec![1, 2, 3], 0);
    assert_eq!(chonk.curtail(), Some(vec![1, 2, 3]));
    assert_eq!(chonk.len(), 0);
    assert_eq!(chonk, Vec::<i32>::new());
}

#[test]
fn do_max_size_curtails_at_once() {
    let mut chonk = Chonk::from_with_max_size(vec![1, 2, 3, 4], 10);
    assert_eq!(chonk.do_max_size(3), Some(vec![4]));
    assert_eq!(chonk, vec![1, 2, 3]);
    assert_eq!(chonk.do_max_size(8), None);
    assert_eq!(chonk, vec![1, 2, 3]);
}

#[test]
fn set_max_size_does_not_curtail() {
    let mut chonk = Chonk::from_with_max_size(vec![1, 2, 3, 4], 10);
    chonk.set_max_size(1);
    assert_eq!(chonk.len(), 4);
    assert_eq!(chonk.curtail(), Some(vec![2, 3, 4]));
}

#[test]
fn new_is_empty() {
    let chonk = Chonk::<u8>::new(4);
    assert_eq!(chonk.len(), 0);
    assert_eq!(chonk, Vec::<u8>::new());
}

#[test]
fn nom_iter_stops_when_full() {
    let mut chonk = Chonk::from_with_max_size(vec![1], 4);
    chonk.nom_iter(vec![10, 20, 30, 40, 50].into_iter());
    assert_eq!(chonk, vec![1, 10, 20, 30]);
}

#[test]
fn nom_iter_stops_when_the_input_runs_out() {
    let mut chonk = Chonk::from_with_max_size(vec![1], 10);
    chonk.nom_iter(vec![10, 20].into_iter());
    assert_eq!(chonk, vec![1, 10, 20]);
    assert_eq!(chonk.len(), 3);
}

#[test]
fn nom_iter_on_a_full_chonk_takes_nothing() {
    let mut chonk = Chonk::from_with_max_size(vec![1, 2], 2);
    let mut source = vec![9, 9, 9].into_iter();
    chonk.nom_iter(&mut source);
    assert_eq!(chonk, vec![1, 2]);
    assert_eq!(source.len(), 3);
}

#[test]
fn nom_iter_takes_no_more_than_needed() {
    let mut chonk = Chonk::<i32>::new(3);
    let mut source = vec![1, 2, 3, 4, 5].into_iter();
    chonk.nom_iter(&mut source);
    assert_eq!(chonk, vec![1, 2, 3]);
    assert_eq!(source.collect::<Vec<_>>(), vec![4, 5]);
}

#[test]
fn for_each_mut_applies_to_every_item() {
    let mut chonk = Chonk::from_with_max_size(vec![2.0f32; 100], 100);
    chonk.for_each_mut(|x| x * 2.0);
    assert_eq!(chonk, Chonk::from(vec![4f32; 100]));
}

#[test]
fn for_each_mut_keeps_order_and_size() {
    let mut chonk = Chonk::from_with_max_size(vec![1, 2, 3], 7);
    chonk.for_each_mut(|x| x * 10 + 1);
    assert_eq!(chonk, vec![11, 21, 31]);
    chonk.nom_iter(vec![0, 0, 0, 0, 0].into_iter());
    assert_eq!(chonk.len(), 7);
}

#[test]
fn from_vec_sets_max_size_to_length() {
    let mut chonk = Chonk::from(vec![5, 6, 7]);
    assert_eq!(chonk.len(), 3);
    assert_eq!(chonk.curtail(), None);
    let mut more = vec![8];
    assert_eq!(chonk.slurp(&mut more), Some(vec![8]));
}

#[test]
fn equality_against_chonks_vecs_and_options() {
    let a = Chonk::from_with_max_size(vec![1, 2], 5);
    let b = Chonk::from_with_max_size(vec![1, 2], 9);
    let c = Chonk::from_with_max_size(vec![1, 3], 5);
    assert!(a == b);
    assert!(a != c);
    assert!(a == vec![1, 2]);
    assert!(a != vec![1, 2, 3]);
    assert!(a == Some(vec![1, 2]));
    assert!(a != None);
    assert!(a != Some(vec![2, 1]));
}

#[test]
fn into_iter_yields_items_in_order() {
    let chonk = Chonk::from_with_max_size(vec!['a', 'b', 'c'], 3);
    let items: Vec<char> = chonk.into_iter().collect();
    assert_eq!(items, vec!['a', 'b', 'c']);
}

#[test]
fn nom_iter_on_a_chonk_made_from_a_vec_adds_nothing() {
    let mut chonk = Chonk::from(vec![1, 2, 3]);
    chonk.nom_iter(std::iter::repeat(7));
    assert_eq!(chonk, vec![1, 2, 3]);
}

#[test]
fn ploop_equals_slurp_into_a_chonk_of_the_new_items() {
    let old_items = vec![7, 8, 9];
    let new_items = vec![1, 2, 3];
    let chonk = Chonk::from_with_max_size(old_items.clone(), 4);
    let (plooped, ploop_excess) = chonk.ploop(new_items.clone());

    let mut other = Chonk::from_with_max_size(new_items, 4);
    let slurp_excess = other.slurp(&mut old_items.clone());

    assert_eq!(plooped, other.into_iter().collect::<Vec<_>>());
    assert_eq!(ploop_excess, slurp_excess);
    assert_eq!(ploop_excess, Some(vec![8, 9]));
}
