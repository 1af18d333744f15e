use physics::id_pool::IdPool;
use physics::Id;

#[test]
fn new_pool_has_no_top() {
    let pool = IdPool::new();
    assert_eq!(pool.max(), None);
}

#[test]
fn next_counts_up_from_zero() {
    let mut pool = IdPool::new();
    assert_eq!(pool.next(), 0);
    assert_eq!(pool.next(), 1);
    assert_eq!(pool.next(), 2);
    assert_eq!(pool.max(), Some(2));
}

#[test]
fn freed_handle_below_the_top_is_handed_out_again() {
    let mut pool = IdPool::new();
    for _ in 0..4 {
        pool.next();
    }
    pool.free(1);
    assert_eq!(pool.max(), Some(3));
    assert_eq!(pool.next(), 1);
    assert_eq!(pool.next(), 4);
}

#[test]
fn next_takes_some_vacancy_when_there_are_several() {
    let mut pool = IdPool::new();
    for _ in 0..6 {
        pool.next();
    }
    pool.free(0);
    pool.free(2);
    pool.free(4);
    let mut taken: Vec<Id> = vec![pool.next(), pool.next(), pool.next()];
    taken.sort();
    assert_eq!(taken, vec![0, 2, 4]);
    assert_eq!(pool.next(), 6);
}

#[test]
fn freeing_the_top_shrinks_the_pool() {
    let mut pool = IdPool::new();
    for _ in 0..3 {
        pool.next();
    }
    pool.free(2);
    assert_eq!(pool.max(), Some(1));
    assert_eq!(pool.next(), 2);
}

#[test]
fn freeing_the_top_also_drops_vacancies_below_it() {
    let mut pool = IdPool::new();
    for _ in 0..5 {
        pool.next();
    }
    pool.free(2);
    pool.free(3);
    pool.free(4);
    assert_eq!(pool.max(), Some(1));
    assert_eq!(pool.next(), 2);
    assert_eq!(pool.next(), 3);
}

#[test]
fn freeing_everything_empties_the_pool() {
    let mut pool = IdPool::new();
    for _ in 0..3 {
        pool.next();
    }
    pool.free(0);
    pool.free(1);
    pool.free(2);
    assert_eq!(pool.max(), None);
    assert_eq!(pool.next(), 0);
}

#[test]
fn free_ignores_handles_that_are_not_in_use() {
    let mut pool = IdPool::new();
    pool.free(0);
    assert_eq!(pool.max(), None);
    pool.next();
    pool.next();
    pool.next();
    pool.free(7);
    pool.free(1);
    pool.free(1);
    assert_eq!(pool.max(), Some(2));
    assert_eq!(pool.next(), 1);
    assert_eq!(pool.next(), 3);
}
