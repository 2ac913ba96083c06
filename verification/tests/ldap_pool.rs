use ldapfill::ldap_pool::LdapPool;

#[test]
fn connections_are_leased_in_turn() {
    let pool = LdapPool::new(vec!["a", "b", "c"]);

    assert_eq!(pool.size(), 3);
    let leased: Vec<&str> = (0..7).map(|_| *pool.get_conn()).collect();

    assert_eq!(leased, vec!["a", "b", "c", "a", "b", "c", "a"]);
}

#[test]
fn pool_of_one_connection_leases_it_every_time() {
    let pool = LdapPool::new(vec![7]);

    for _ in 0..5 {
        assert_eq!(*pool.get_conn(), 7);
    }
}

#[test]
fn every_window_of_as_many_calls_as_connections_holds_each_once() {
    let size = 5;
    let pool = LdapPool::new((0..size).collect::<Vec<usize>>());
    let leased: Vec<usize> = (0..23).map(|_| *pool.get_conn()).collect();

    for from in 0..=(leased.len() - size) {
        let mut window: Vec<usize> = leased[from..from + size].to_vec();
        window.sort();
        assert_eq!(window, (0..size).collect::<Vec<usize>>());
    }
}

#[test]
fn connection_of_a_call_is_its_number_counted_round_the_pool() {
    let pool = LdapPool::new(vec!["a", "b", "c"]);

    assert_eq!(*pool.conn_at(0), "a");
    assert_eq!(*pool.conn_at(1), "b");
    assert_eq!(*pool.conn_at(2), "c");
    assert_eq!(*pool.conn_at(3), "a");
    assert_eq!(*pool.conn_at(100), "b");
    assert_eq!(*pool.conn_at(usize::MAX), ["a", "b", "c"][usize::MAX % 3]);
}

#[test]
fn pool_is_shared_by_those_who_lease() {
    let pool = LdapPool::new(vec![0usize, 1, 2, 3]);
    let first = &pool;
    let second = &pool;
    let mut counts = [0usize; 4];

    for _ in 0..100 {
        counts[*first.get_conn()] += 1;
        counts[*second.get_conn()] += 1;
    }

    assert_eq!(counts, [50, 50, 50, 50]);
    assert_eq!(*first.get_conn(), 0);
    assert_eq!(*second.get_conn(), 1);
}

#[test]
fn empty_pool_has_no_connection() {
    let pool: LdapPool<u8> = LdapPool::new(vec![]);

    assert_eq!(pool.size(), 0);
}
