use listener_pool::address::{BindAddress, Host};
use listener_pool::error::{ConfigFault, PoolError};
use listener_pool::pool::{start, Pool};
use listener_pool::worker::{Directive, Phase, SetupEvent, Socket, Worker};

fn wildcard(port: u16) -> BindAddress {
    BindAddress { host: Host { a: 0, b: 0, c: 0, d: 0 }, port }
}

fn started(workers: i32) -> Pool {
    match start(workers, "0.0.0.0", 3000) {
        Ok(pool) => pool,
        Err(error) => panic!("the pool was refused: {:?}", error),
    }
}

fn bring_up(pool: &mut Pool, worker: usize) {
    let address = pool.address();
    assert_eq!(pool.handle(worker, SetupEvent::ThreadStarted), Directive::CreateContext);
    assert_eq!(pool.handle(worker, SetupEvent::ContextCreated), Directive::CreateSocket);
    assert_eq!(pool.handle(worker, SetupEvent::SocketCreated), Directive::SharePort);
    assert_eq!(pool.handle(worker, SetupEvent::PortShared), Directive::Bind { address });
    assert_eq!(pool.handle(worker, SetupEvent::Bound), Directive::BuildApplication);
    assert_eq!(pool.handle(worker, SetupEvent::ApplicationBuilt), Directive::Serve);
}

fn bring_to_bind(pool: &mut Pool, worker: usize) {
    pool.handle(worker, SetupEvent::ThreadStarted);
    pool.handle(worker, SetupEvent::ContextCreated);
    pool.handle(worker, SetupEvent::SocketCreated);
    pool.handle(worker, SetupEvent::PortShared);
}

fn phase(pool: &Pool, worker: usize) -> Phase {
    match pool.worker(worker) {
        Some(found) => found.phase,
        None => panic!("the pool has no worker {}", worker),
    }
}

#[test]
fn a_started_pool_has_its_workers_planned() {
    let pool = started(4);
    assert_eq!(pool.worker_count(), 4);
    assert_eq!(pool.address(), wildcard(3000));
    assert_eq!(pool.outcome(), None);
    for index in 0..4 {
        assert_eq!(
            pool.worker(index),
            Some(Worker { index, address: wildcard(3000), phase: Phase::Planned })
        );
    }
    assert_eq!(pool.worker(4), None);
}

#[test]
fn a_started_pool_has_no_socket() {
    let pool = started(4);
    assert_eq!(pool.listening(), 0);
    assert!(!pool.is_steady());
    for index in 0..4 {
        let worker = pool.worker(index).expect("a planned worker");
        assert_eq!(worker.held_socket(), None);
    }
}

#[test]
fn no_pool_starts_without_a_worker() {
    assert_eq!(
        start(0, "0.0.0.0", 3000).err(),
        Some(PoolError::ConfigError(ConfigFault::WorkerCount))
    );
}

#[test]
fn no_pool_starts_with_a_negative_worker_count() {
    for count in [-1, -4, -1000, i32::MIN] {
        assert_eq!(
            start(count, "0.0.0.0", 3000).err(),
            Some(PoolError::ConfigError(ConfigFault::WorkerCount))
        );
    }
}

#[test]
fn no_pool_starts_on_a_malformed_host() {
    for host in ["", "localhost", "1.2.3", "1.2.3.4.5", "256.0.0.1", "01.0.0.1", "0.0.0.0:80"] {
        assert_eq!(
            start(4, host, 3000).err(),
            Some(PoolError::ConfigError(ConfigFault::Host))
        );
    }
}

#[test]
fn no_pool_starts_on_port_zero() {
    assert_eq!(start(4, "0.0.0.0", 0).err(), Some(PoolError::ConfigError(ConfigFault::Port)));
}

#[test]
fn the_worker_count_is_looked_at_first() {
    assert_eq!(
        start(0, "nowhere", 0).err(),
        Some(PoolError::ConfigError(ConfigFault::WorkerCount))
    );
    assert_eq!(start(1, "nowhere", 0).err(), Some(PoolError::ConfigError(ConfigFault::Host)));
}

#[test]
fn a_worker_is_set_up_step_by_step() {
    let mut pool = started(1);
    let address = wildcard(3000);
    assert_eq!(pool.handle(0, SetupEvent::ThreadStarted), Directive::CreateContext);
    assert_eq!(phase(&pool, 0), Phase::Running);
    assert_eq!(pool.handle(0, SetupEvent::ContextCreated), Directive::CreateSocket);
    assert_eq!(phase(&pool, 0), Phase::ContextReady);
    assert_eq!(pool.handle(0, SetupEvent::SocketCreated), Directive::SharePort);
    assert_eq!(phase(&pool, 0), Phase::SocketOpen);
    assert_eq!(pool.handle(0, SetupEvent::PortShared), Directive::Bind { address });
    assert_eq!(phase(&pool, 0), Phase::PortShared);
    assert_eq!(pool.handle(0, SetupEvent::Bound), Directive::BuildApplication);
    assert_eq!(phase(&pool, 0), Phase::Listening);
    assert_eq!(pool.handle(0, SetupEvent::ApplicationBuilt), Directive::Serve);
    assert_eq!(phase(&pool, 0), Phase::Serving);
}

#[test]
fn the_socket_shares_its_port_before_it_is_bound() {
    let mut pool = started(2);
    pool.handle(0, SetupEvent::ThreadStarted);
    pool.handle(0, SetupEvent::ContextCreated);
    assert_eq!(pool.worker(0).expect("worker 0").held_socket(), None);
    pool.handle(0, SetupEvent::SocketCreated);
    assert_eq!(
        pool.worker(0).expect("worker 0").held_socket(),
        Some(Socket { shared: false, bound: None })
    );
    // A bind that is reported before the option is set is not taken in.
    assert_eq!(pool.handle(0, SetupEvent::Bound), Directive::Ignore);
    assert_eq!(phase(&pool, 0), Phase::SocketOpen);
    assert_eq!(pool.listening(), 0);
    pool.handle(0, SetupEvent::PortShared);
    assert_eq!(
        pool.worker(0).expect("worker 0").held_socket(),
        Some(Socket { shared: true, bound: None })
    );
    pool.handle(0, SetupEvent::Bound);
    assert_eq!(
        pool.worker(0).expect("worker 0").held_socket(),
        Some(Socket { shared: true, bound: Some(wildcard(3000)) })
    );
    assert_eq!(pool.listening(), 1);
}

#[test]
fn setup_ends_with_a_listening_socket_for_every_worker() {
    for count in [1usize, 2, 3, 4, 8, 16] {
        let mut pool = match start(count as i32, "127.0.0.1", 8080) {
            Ok(pool) => pool,
            Err(error) => panic!("the pool was refused: {:?}", error),
        };
        let address = BindAddress { host: Host { a: 127, b: 0, c: 0, d: 1 }, port: 8080 };
        for worker in 0..count {
            assert!(!pool.is_steady());
            assert_eq!(pool.listening(), worker);
            bring_up(&mut pool, worker);
        }
        assert!(pool.is_steady());
        assert_eq!(pool.outcome(), None);
        assert_eq!(pool.listening(), count);
        for worker in 0..count {
            assert_eq!(
                pool.worker(worker).expect("a worker").held_socket(),
                Some(Socket { shared: true, bound: Some(address) })
            );
        }
    }
}

#[test]
fn one_worker_is_a_pool_like_any_other() {
    let mut pool = started(1);
    bring_up(&mut pool, 0);
    assert!(pool.is_steady());
    assert_eq!(pool.listening(), 1);
    assert_eq!(
        pool.worker(0).expect("worker 0").held_socket(),
        Some(Socket { shared: true, bound: Some(wildcard(3000)) })
    );
}

#[test]
fn workers_set_themselves_up_side_by_side() {
    let mut pool = started(3);
    let events = [
        SetupEvent::ThreadStarted,
        SetupEvent::ContextCreated,
        SetupEvent::SocketCreated,
        SetupEvent::PortShared,
        SetupEvent::Bound,
        SetupEvent::ApplicationBuilt,
    ];
    for event in events {
        for worker in [2usize, 0, 1] {
            assert!(!pool.is_steady());
            let directive = pool.handle(worker, event);
            assert_ne!(directive, Directive::Ignore);
            assert_ne!(directive, Directive::Stop);
        }
    }
    assert!(pool.is_steady());
    assert_eq!(pool.listening(), 3);
}

#[test]
fn an_event_changes_one_worker_only() {
    let mut pool = started(3);
    bring_up(&mut pool, 0);
    bring_to_bind(&mut pool, 2);
    let first = pool.worker(0);
    let last = pool.worker(2);
    pool.handle(1, SetupEvent::ThreadStarted);
    pool.handle(1, SetupEvent::ContextCreated);
    assert_eq!(pool.worker(0), first);
    assert_eq!(pool.worker(2), last);
    assert_eq!(phase(&pool, 1), Phase::ContextReady);
}

#[test]
fn a_failed_bind_tears_the_pool_down() {
    let mut pool = started(4);
    bring_up(&mut pool, 0);
    bring_up(&mut pool, 1);
    bring_to_bind(&mut pool, 2);
    assert_eq!(pool.listening(), 2);
    let directive = pool.handle(2, SetupEvent::BindFailed);
    assert_eq!(directive, Directive::TearDown { error: PoolError::BindError { worker: 2 } });
    assert_eq!(pool.outcome(), Some(PoolError::BindError { worker: 2 }));
    assert!(!pool.is_steady());
    assert_eq!(pool.listening(), 0);
    assert_eq!(phase(&pool, 0), Phase::Stopped);
    assert_eq!(phase(&pool, 1), Phase::Stopped);
    assert_eq!(phase(&pool, 2), Phase::Failed);
    assert_eq!(phase(&pool, 3), Phase::Stopped);
}

#[test]
fn a_pool_that_lost_a_worker_never_completes_setup() {
    let mut pool = started(4);
    bring_up(&mut pool, 0);
    bring_to_bind(&mut pool, 1);
    pool.handle(1, SetupEvent::BindFailed);
    let events = [
        SetupEvent::ThreadStarted,
        SetupEvent::ContextCreated,
        SetupEvent::SocketCreated,
        SetupEvent::PortShared,
        SetupEvent::Bound,
        SetupEvent::ApplicationBuilt,
    ];
    for worker in 0..4 {
        for event in events {
            assert_eq!(pool.handle(worker, event), Directive::Stop);
            assert!(!pool.is_steady());
            assert_eq!(pool.listening(), 0);
        }
    }
    assert_eq!(pool.outcome(), Some(PoolError::BindError { worker: 1 }));
}

#[test]
fn a_failed_bind_of_the_first_worker_is_fatal_too() {
    let mut pool = started(2);
    bring_to_bind(&mut pool, 0);
    assert_eq!(
        pool.handle(0, SetupEvent::BindFailed),
        Directive::TearDown { error: PoolError::BindError { worker: 0 } }
    );
    assert_eq!(pool.handle(1, SetupEvent::ThreadStarted), Directive::Stop);
    assert_eq!(phase(&pool, 1), Phase::Stopped);
}

#[test]
fn a_platform_without_port_sharing_ends_the_pool() {
    let mut pool = started(2);
    bring_up(&mut pool, 0);
    pool.handle(1, SetupEvent::ThreadStarted);
    pool.handle(1, SetupEvent::ContextCreated);
    pool.handle(1, SetupEvent::SocketCreated);
    assert_eq!(
        pool.handle(1, SetupEvent::SharingUnsupported),
        Directive::TearDown { error: PoolError::UnsupportedPlatform }
    );
    assert_eq!(pool.outcome(), Some(PoolError::UnsupportedPlatform));
    assert_eq!(phase(&pool, 0), Phase::Stopped);
    assert_eq!(phase(&pool, 1), Phase::Failed);
    assert_eq!(pool.listening(), 0);
}

#[test]
fn the_single_worker_needs_port_sharing_as_well() {
    let mut pool = started(1);
    pool.handle(0, SetupEvent::ThreadStarted);
    pool.handle(0, SetupEvent::ContextCreated);
    pool.handle(0, SetupEvent::SocketCreated);
    assert_eq!(
        pool.handle(0, SetupEvent::SharingUnsupported),
        Directive::TearDown { error: PoolError::UnsupportedPlatform }
    );
}

#[test]
fn the_first_error_is_the_one_reported() {
    let mut pool = started(3);
    bring_to_bind(&mut pool, 0);
    bring_to_bind(&mut pool, 1);
    pool.handle(1, SetupEvent::BindFailed);
    assert_eq!(pool.handle(0, SetupEvent::BindFailed), Directive::Stop);
    assert_eq!(pool.outcome(), Some(PoolError::BindError { worker: 1 }));
}

#[test]
fn an_event_out_of_turn_is_ignored() {
    let mut pool = started(2);
    assert_eq!(pool.handle(0, SetupEvent::Bound), Directive::Ignore);
    assert_eq!(pool.handle(0, SetupEvent::BindFailed), Directive::Ignore);
    assert_eq!(pool.handle(0, SetupEvent::ApplicationBuilt), Directive::Ignore);
    assert_eq!(phase(&pool, 0), Phase::Planned);
    assert_eq!(pool.outcome(), None);
    bring_up(&mut pool, 0);
    assert_eq!(pool.handle(0, SetupEvent::ThreadStarted), Directive::Ignore);
    assert_eq!(pool.handle(0, SetupEvent::BindFailed), Directive::Ignore);
    assert_eq!(phase(&pool, 0), Phase::Serving);
}

#[test]
fn an_event_of_no_worker_is_ignored() {
    let mut pool = started(2);
    assert_eq!(pool.handle(2, SetupEvent::ThreadStarted), Directive::Ignore);
    assert_eq!(pool.handle(usize::MAX, SetupEvent::BindFailed), Directive::Ignore);
    assert_eq!(pool.outcome(), None);
    assert_eq!(phase(&pool, 0), Phase::Planned);
    assert_eq!(phase(&pool, 1), Phase::Planned);
}

#[test]
fn a_worker_on_its_own_goes_the_same_way() {
    let address = wildcard(3000);
    let mut worker = Worker::planned(7, address);
    assert_eq!(worker, Worker { index: 7, address, phase: Phase::Planned });
    assert_eq!(worker.advance(SetupEvent::ThreadStarted), Directive::CreateContext);
    assert_eq!(worker.advance(SetupEvent::ContextCreated), Directive::CreateSocket);
    assert_eq!(worker.advance(SetupEvent::SocketCreated), Directive::SharePort);
    assert_eq!(worker.advance(SetupEvent::PortShared), Directive::Bind { address });
    assert_eq!(
        worker.advance(SetupEvent::BindFailed),
        Directive::TearDown { error: PoolError::BindError { worker: 7 } }
    );
    assert_eq!(worker.phase, Phase::Failed);
    assert_eq!(worker.advance(SetupEvent::Bound), Directive::Stop);
    assert_eq!(worker.held_socket(), None);
}

#[test]
fn no_worker_is_asked_for_a_step_twice() {
    let mut pool = started(2);
    let events = [
        SetupEvent::ThreadStarted,
        SetupEvent::ContextCreated,
        SetupEvent::SocketCreated,
        SetupEvent::PortShared,
        SetupEvent::Bound,
        SetupEvent::ApplicationBuilt,
    ];
    let mut asked: Vec<Directive> = Vec::new();
    // Every report comes three times, and then all of them once more.
    for event in events {
        for _ in 0..3 {
            let directive = pool.handle(0, event);
            if directive != Directive::Ignore {
                assert!(!asked.contains(&directive), "{:?} was asked twice", directive);
                asked.push(directive);
            }
        }
    }
    for event in events {
        assert_eq!(pool.handle(0, event), Directive::Ignore);
    }
    assert_eq!(
        asked,
        vec![
            Directive::CreateContext,
            Directive::CreateSocket,
            Directive::SharePort,
            Directive::Bind { address: wildcard(3000) },
            Directive::BuildApplication,
            Directive::Serve,
        ]
    );
    assert_eq!(phase(&pool, 1), Phase::Planned);
}

#[test]
fn the_workers_and_the_address_stay_as_they_were_started() {
    let mut pool = started(3);
    bring_up(&mut pool, 0);
    bring_to_bind(&mut pool, 1);
    assert_eq!(pool.worker_count(), 3);
    assert_eq!(pool.address(), wildcard(3000));
    pool.handle(1, SetupEvent::BindFailed);
    assert_eq!(pool.worker_count(), 3);
    assert_eq!(pool.address(), wildcard(3000));
    for index in 0..3 {
        let worker = pool.worker(index).expect("a worker");
        assert_eq!(worker.index, index);
        assert_eq!(worker.address, wildcard(3000));
    }
}
