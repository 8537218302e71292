use fuc_engine::error::{Attempt, Context, Error, Failure, FailureKind, Subject};
use fuc_engine::linux::pool::{
    join_outcome, root_worker_thread, worker_thread, Joined, PoolEvent, PoolPhase, RootWorker,
    Worker, WorkerEvent,
};

type Event = PoolEvent<&'static str>;

fn go(mut worker: RootWorker, events: Vec<Event>) -> RootWorker {
    for event in events {
        assert!(worker.accepts(&event));
        worker = worker.advance(event).unwrap();
    }
    worker
}

fn task(queue_empty: bool) -> Event {
    PoolEvent::Task { queue_empty }
}

fn copied() -> Event {
    PoolEvent::Copied(Ok(()))
}

fn well() -> Event {
    PoolEvent::Joined(Joined::Returned(Ok(())))
}

#[test]
fn threads_are_started_while_there_is_work_and_room() {
    let worker = root_worker_thread(Some(3));
    assert_eq!(worker.available_parallelism, 2);
    let worker = go(worker, vec![task(true)]);
    assert_eq!(worker.phase, PoolPhase::Copying { spawn: false });
    let worker = go(worker, vec![copied(), task(false)]);
    assert_eq!(worker.phase, PoolPhase::Copying { spawn: true });
    let worker = go(worker, vec![copied(), task(false), copied(), task(false)]);
    assert_eq!(worker.phase, PoolPhase::Copying { spawn: false });
    assert_eq!((worker.spawned, worker.available_parallelism), (2, 0));
    let worker = go(worker, vec![copied(), PoolEvent::Closed]);
    assert_eq!(worker.phase, PoolPhase::Joining { joined: 0 });
    let worker = go(worker, vec![well(), well()]);
    assert_eq!(worker.phase, PoolPhase::Done);
}

#[test]
fn one_processor_is_one_thread() {
    for parallelism in [None, Some(1)] {
        let worker = go(root_worker_thread(parallelism), vec![task(false)]);
        assert_eq!(worker.phase, PoolPhase::Copying { spawn: false });
        let worker = go(worker, vec![copied(), PoolEvent::Closed]);
        assert_eq!(worker.phase, PoolPhase::Done);
    }
}

#[test]
fn the_first_failure_ends_the_work() {
    let worker = go(root_worker_thread(Some(2)), vec![task(false)]);
    let failed: Event = PoolEvent::Copied(Err(Error::Internal));
    assert_eq!(worker.advance(failed), Err(Error::Internal));
    let worker = go(worker, vec![copied(), PoolEvent::Closed]);
    let died: Event = PoolEvent::Joined(Joined::Panicked);
    assert_eq!(worker.advance(died), Err(Error::Join));
    let failed: Event = PoolEvent::Joined(Joined::Returned(Err(Error::Internal)));
    assert_eq!(worker.advance(failed), Err(Error::Internal));
    assert!(!worker.accepts(&task(true)));
}

#[test]
fn further_threads_take_their_own_descriptors_first() {
    let worker = worker_thread();
    assert!(!worker.accepts::<&str>(&WorkerEvent::Task));
    let refused = WorkerEvent::Unshared(Err(Failure { kind: FailureKind::Other, error: "no" }));
    assert_eq!(
        worker.advance(refused),
        Err(Error::Io {
            error: "no",
            context: Context { attempt: Attempt::UnshareDescriptors, subject: Subject::Nothing }
        })
    );
    let worker = worker.advance::<&str>(WorkerEvent::Unshared(Ok(()))).unwrap();
    assert_eq!(worker, Worker::Receiving);
    let worker = worker.advance::<&str>(WorkerEvent::Task).unwrap();
    assert_eq!(worker, Worker::Copying);
    assert_eq!(
        worker.advance::<&str>(WorkerEvent::Copied(Err(Error::Internal))),
        Err(Error::Internal)
    );
    let worker = worker.advance::<&str>(WorkerEvent::Copied(Ok(()))).unwrap();
    assert_eq!(worker.advance::<&str>(WorkerEvent::Closed).unwrap(), Worker::Done);
}

#[test]
fn a_thread_that_dies_is_a_join_error() {
    assert_eq!(join_outcome::<()>(Joined::Panicked), Err(Error::Join));
    assert_eq!(join_outcome::<()>(Joined::Returned(Ok(()))), Ok(()));
}
