use omniengine::batcher::{build_batch, collect_batch, Action, BatchError, Collector};
use omniengine::queue::{JobQueue, QueueEvent};
use omniengine::tensor::Tensor;
use omniengine::types::Job;

fn zero_job(id: &str, shape: &[usize]) -> Job {
    Job { id: id.to_string(), tensor: Tensor::zeros(shape.to_vec()).unwrap() }
}

fn filled_job(id: &str, shape: &[usize], value: f32) -> Job {
    let n: usize = shape.iter().product();
    Job {
        id: id.to_string(),
        tensor: Tensor::from_shape_vec(shape.to_vec(), vec![value.to_bits(); n]).unwrap(),
    }
}

fn send(queue: &mut JobQueue, job: Job) {
    assert!(queue.send(job).is_ok());
}

#[test]
fn test_collect_batch_single_job() {
    let mut rx = JobQueue::new();
    send(&mut rx, zero_job("job1", &[1, 3, 64, 64]));
    rx.close();

    let batch = collect_batch(4, &mut rx, 4, 100).unwrap().unwrap();

    assert_eq!(batch.actual_len, 1);
    assert_eq!(batch.ids.len(), 4);
    assert_eq!(batch.tensor.shape()[0], 4);
}

#[test]
fn test_collect_batch_multiple_jobs() {
    let mut rx = JobQueue::new();
    for i in 0..3 {
        send(&mut rx, filled_job(&format!("job{}", i), &[1, 3, 32, 32], 1.0));
    }
    rx.close();

    let batch = collect_batch(4, &mut rx, 4, 100).unwrap().unwrap();

    assert_eq!(batch.actual_len, 3);
    assert_eq!(batch.ids.len(), 4);
    assert_eq!(batch.tensor.shape(), &[4, 3, 32, 32]);
}

#[test]
fn test_collect_batch_channel_closed() {
    let mut rx = JobQueue::new();
    rx.close();

    let result = collect_batch(4, &mut rx, 4, 100).unwrap();

    assert!(result.is_none());
}

#[test]
fn test_collect_batch_max_batch_limit() {
    let mut rx = JobQueue::new();
    for i in 0..6 {
        send(&mut rx, zero_job(&format!("job{}", i), &[1, 1, 16, 16]));
    }

    let batch = collect_batch(4, &mut rx, 4, 10).unwrap().unwrap();

    assert_eq!(batch.actual_len, 4);
    assert_eq!(batch.ids.len(), 4);
    assert_eq!(rx.len(), 2);
}

#[test]
fn test_channel_creation() {
    let mut rx = JobQueue::new();
    send(&mut rx, zero_job("test-job-1", &[1, 3, 224, 224]));
    let received = rx.recv().unwrap();

    assert_eq!(received.id, "test-job-1");
    assert_eq!(received.tensor.shape(), &[1, 3, 224, 224]);
}

#[test]
fn single_job_is_padded_up() {
    let mut rx = JobQueue::new();
    send(&mut rx, zero_job("j1", &[1, 3, 64, 64]));
    rx.close();
    let batch = collect_batch(4, &mut rx, 4, 100).unwrap().unwrap();
    assert_eq!(batch.ids, vec!["j1", "DUMMY-2", "DUMMY-3", "DUMMY-4"]);
    assert_eq!(batch.actual_len, 1);
    assert_eq!(batch.tensor.shape(), &[4, 3, 64, 64]);
    assert!(collect_batch(4, &mut rx, 4, 100).unwrap().is_none());
}

#[test]
fn exactly_full_batch_has_no_padding() {
    let mut rx = JobQueue::new();
    for i in 0..4 {
        send(&mut rx, filled_job(&format!("j{}", i), &[1, 2, 2, 2], i as f32 + 1.0));
    }
    rx.close();
    let batch = collect_batch(4, &mut rx, 4, 100).unwrap().unwrap();
    assert_eq!(batch.ids, vec!["j0", "j1", "j2", "j3"]);
    assert_eq!(batch.actual_len, 4);
    assert_eq!(batch.tensor.shape(), &[4, 2, 2, 2]);
    for i in 0..4 {
        let row = batch.tensor.index_axis0(i).unwrap();
        assert!(row.data().iter().all(|&b| f32::from_bits(b) == i as f32 + 1.0));
    }
    assert!(collect_batch(4, &mut rx, 4, 100).unwrap().is_none());
}

#[test]
fn overflow_of_max_batch_goes_to_the_next_batch() {
    let mut rx = JobQueue::new();
    for i in 0..6 {
        send(&mut rx, zero_job(&format!("j{}", i), &[1, 1, 2, 2]));
    }
    rx.close();
    let first = collect_batch(4, &mut rx, 4, 10).unwrap().unwrap();
    assert_eq!(first.ids, vec!["j0", "j1", "j2", "j3"]);
    assert_eq!(first.actual_len, 4);
    let second = collect_batch(4, &mut rx, 4, 10).unwrap().unwrap();
    assert_eq!(second.ids, vec!["j4", "j5", "DUMMY-3", "DUMMY-4"]);
    assert_eq!(second.actual_len, 2);
    assert!(collect_batch(4, &mut rx, 4, 10).unwrap().is_none());
}

#[test]
fn deadline_cuts_the_window() {
    let mut rx = JobQueue::new();
    send(&mut rx, zero_job("a", &[1, 1, 1, 1]));
    send(&mut rx, zero_job("b", &[1, 1, 1, 1]));
    rx.pause(100);
    send(&mut rx, zero_job("c", &[1, 1, 1, 1]));
    send(&mut rx, zero_job("d", &[1, 1, 1, 1]));
    rx.close();

    let first = collect_batch(8, &mut rx, 8, 50).unwrap().unwrap();
    assert_eq!(first.actual_len, 2);
    assert_eq!(&first.ids[..2], &["a", "b"]);
    assert_eq!(first.ids.len(), 8);
    assert_eq!(rx.now(), 50);

    let second = collect_batch(8, &mut rx, 8, 50).unwrap().unwrap();
    assert_eq!(second.actual_len, 2);
    assert_eq!(&second.ids[..2], &["c", "d"]);
    assert_eq!(rx.now(), 100);
    assert!(collect_batch(8, &mut rx, 8, 50).unwrap().is_none());
}

#[test]
fn lone_job_is_emitted_at_the_deadline() {
    let mut rx = JobQueue::new();
    rx.pause(7);
    send(&mut rx, zero_job("only", &[1, 1, 1, 1]));
    let batch = collect_batch(2, &mut rx, 2, 30).unwrap().unwrap();
    assert_eq!(batch.actual_len, 1);
    assert_eq!(batch.ids, vec!["only", "DUMMY-2"]);
    assert_eq!(rx.now(), 37);
}

#[test]
fn deadline_wins_a_tie() {
    let mut rx = JobQueue::new();
    send(&mut rx, zero_job("a", &[1, 1, 1, 1]));
    rx.pause(50);
    send(&mut rx, zero_job("b", &[1, 1, 1, 1]));
    let batch = collect_batch(4, &mut rx, 4, 50).unwrap().unwrap();
    assert_eq!(batch.actual_len, 1);
    assert_eq!(rx.len(), 1);
    let mut rx = JobQueue::new();
    send(&mut rx, zero_job("a", &[1, 1, 1, 1]));
    rx.pause(49);
    send(&mut rx, zero_job("b", &[1, 1, 1, 1]));
    let batch = collect_batch(4, &mut rx, 4, 50).unwrap().unwrap();
    assert_eq!(batch.actual_len, 2);
    assert_eq!(rx.now(), 50);
}

#[test]
fn closing_ends_the_window_before_the_deadline() {
    let mut rx = JobQueue::new();
    send(&mut rx, zero_job("a", &[1, 1, 1, 1]));
    rx.pause(10);
    rx.close();
    let batch = collect_batch(4, &mut rx, 4, 50).unwrap().unwrap();
    assert_eq!(batch.actual_len, 1);
    assert_eq!(rx.now(), 10);
}

#[test]
fn zero_wait_takes_one_job_at_a_time() {
    let mut rx = JobQueue::new();
    send(&mut rx, zero_job("a", &[1, 1, 1, 1]));
    rx.close();
    let batch = collect_batch(4, &mut rx, 4, 0).unwrap().unwrap();
    assert_eq!(batch.actual_len, 1);
    assert_eq!(batch.ids, vec!["a", "DUMMY-2", "DUMMY-3", "DUMMY-4"]);

    let mut rx = JobQueue::new();
    for id in ["a", "b", "c"] {
        send(&mut rx, zero_job(id, &[1, 1, 1, 1]));
    }
    rx.close();
    for id in ["a", "b", "c"] {
        let batch = collect_batch(4, &mut rx, 4, 0).unwrap().unwrap();
        assert_eq!(batch.actual_len, 1);
        assert_eq!(batch.ids[0], id);
    }
    assert!(collect_batch(4, &mut rx, 4, 0).unwrap().is_none());
}

#[test]
fn a_burst_makes_full_batches_and_a_remainder() {
    for (k, expected) in [(0usize, vec![]), (1, vec![1]), (4, vec![4]), (5, vec![4, 1]), (8, vec![4, 4]), (10, vec![4, 4, 2])] {
        let mut rx = JobQueue::new();
        for i in 0..k {
            send(&mut rx, zero_job(&format!("j{}", i), &[1, 1, 1, 1]));
        }
        rx.close();
        let mut sizes: Vec<usize> = Vec::new();
        while let Some(batch) = collect_batch(4, &mut rx, 4, 25).unwrap() {
            assert_eq!(batch.ids.len(), 4);
            sizes.push(batch.actual_len);
        }
        assert_eq!(sizes, expected);
        assert_eq!(sizes.len(), (k + 3) / 4);
    }
}

#[test]
fn padding_is_zero_and_real_samples_keep_their_values() {
    let jobs = vec![filled_job("a", &[1, 2, 3], 1.5), filled_job("b", &[1, 2, 3], -2.0)];
    let batch = build_batch(4, &jobs).unwrap();
    assert_eq!(batch.tensor.shape(), &[4, 2, 3]);
    assert_eq!(batch.ids, vec!["a", "b", "DUMMY-3", "DUMMY-4"]);
    assert_eq!(batch.actual_len, 2);
    let data = batch.tensor.data();
    assert_eq!(data.len(), 24);
    assert!(data[0..6].iter().all(|&b| f32::from_bits(b) == 1.5));
    assert!(data[6..12].iter().all(|&b| f32::from_bits(b) == -2.0));
    assert!(data[12..24].iter().all(|&b| b == 0));
}

#[test]
fn producer_contract_violation_fails_the_batch() {
    let mut rx = JobQueue::new();
    send(&mut rx, zero_job("j0", &[1, 3, 64, 64]));
    send(&mut rx, zero_job("j1", &[1, 3, 32, 32]));
    rx.close();
    assert_eq!(collect_batch(4, &mut rx, 4, 10).err(), Some(BatchError::ShapeMismatch));
    assert_eq!(rx.len(), 0);
}

#[test]
fn build_batch_names_its_errors() {
    assert_eq!(build_batch(4, &vec![]).err(), Some(BatchError::NoJobs));
    let three = vec![
        zero_job("a", &[1, 2]),
        zero_job("b", &[1, 2]),
        zero_job("c", &[1, 2]),
    ];
    assert_eq!(build_batch(2, &three).err(), Some(BatchError::TooManyJobs));
    assert_eq!(build_batch(0, &three).err(), Some(BatchError::TooManyJobs));
    assert_eq!(
        build_batch(4, &vec![zero_job("a", &[2, 3, 4, 4])]).err(),
        Some(BatchError::NotSingleSample)
    );
    assert_eq!(
        build_batch(4, &vec![Job { id: "a".to_string(), tensor: Tensor::zeros(vec![]).unwrap() }]).err(),
        Some(BatchError::NotSingleSample)
    );
    assert_eq!(
        build_batch(4, &vec![zero_job("a", &[1, 2]), zero_job("b", &[1, 3])]).err(),
        Some(BatchError::ShapeMismatch)
    );
    let half = (isize::MAX as usize) / 2 + 1;
    assert_eq!(
        build_batch(2, &vec![zero_job("a", &[1, 0, half])]).err(),
        Some(BatchError::TooLarge)
    );
    assert!(build_batch(1, &vec![zero_job("a", &[1, 0, half])]).is_ok());
}

#[test]
fn collector_follows_the_events() {
    let mut c = Collector::new(3);
    assert!(!c.is_done());
    assert_eq!(c.step(QueueEvent::Deadline), Action::AwaitFirst);
    assert_eq!(c.step(QueueEvent::Job(zero_job("a", &[1, 1]))), Action::StartTimer);
    assert_eq!(c.step(QueueEvent::Job(zero_job("b", &[1, 1]))), Action::AwaitNext);
    assert_eq!(c.len(), 2);
    assert_eq!(c.step(QueueEvent::Job(zero_job("c", &[1, 1]))), Action::Emit);
    assert!(c.is_done());
    let ids: Vec<String> = c.into_jobs().into_iter().map(|j| j.id).collect();
    assert_eq!(ids, vec!["a", "b", "c"]);

    let mut c = Collector::new(3);
    assert_eq!(c.step(QueueEvent::Closed), Action::End);
    assert!(c.is_done());
    assert!(c.into_jobs().is_empty());

    let mut c = Collector::new(3);
    assert_eq!(c.step(QueueEvent::Job(zero_job("a", &[1, 1]))), Action::StartTimer);
    assert_eq!(c.step(QueueEvent::Deadline), Action::Emit);
    assert_eq!(c.into_jobs().len(), 1);

    let mut c = Collector::new(3);
    assert_eq!(c.step(QueueEvent::Job(zero_job("a", &[1, 1]))), Action::StartTimer);
    assert_eq!(c.step(QueueEvent::Closed), Action::Emit);

    let mut c = Collector::new(1);
    assert_eq!(c.step(QueueEvent::Job(zero_job("a", &[1, 1]))), Action::Emit);
    let mut c = Collector::new(0);
    assert_eq!(c.step(QueueEvent::Job(zero_job("a", &[1, 1]))), Action::Emit);
}

#[test]
fn queue_keeps_time_and_order() {
    let mut q = JobQueue::new();
    assert_eq!(q.now(), 0);
    assert!(!q.is_closed());
    assert!(q.recv().is_none());
    send(&mut q, zero_job("a", &[1]));
    q.pause(5);
    send(&mut q, zero_job("b", &[1]));
    q.advance_to(3);
    q.advance_to(9);
    send(&mut q, zero_job("c", &[1]));
    q.close();
    assert!(q.is_closed());
    q.pause(100);
    let refused = q.send(zero_job("late", &[1]));
    assert_eq!(refused.err().map(|j| j.id), Some("late".to_string()));
    assert_eq!(q.len(), 3);
    assert_eq!(q.recv().unwrap().id, "a");
    assert_eq!(q.now(), 0);
    assert_eq!(q.recv().unwrap().id, "b");
    assert_eq!(q.now(), 5);
    match q.recv_before(9) {
        QueueEvent::Deadline => {}
        other => panic!("unexpected {:?}", other),
    }
    assert_eq!(q.now(), 9);
    match q.recv_before(9) {
        QueueEvent::Deadline => {}
        other => panic!("unexpected {:?}", other),
    }
    match q.recv_before(10) {
        QueueEvent::Job(job) => assert_eq!(job.id, "c"),
        other => panic!("unexpected {:?}", other),
    }
    match q.recv_before(20) {
        QueueEvent::Closed => {}
        other => panic!("unexpected {:?}", other),
    }
    assert_eq!(q.now(), 9);
    assert!(q.recv().is_none());
}

#[test]
fn nothing_pending_on_an_open_queue_is_not_its_end() {
    let mut rx = JobQueue::new();
    assert!(collect_batch(4, &mut rx, 4, 10).unwrap().is_none());
    assert!(!rx.is_closed());
    assert_eq!(rx.now(), 0);
    assert!(rx.recv().is_none());
    rx.pause(5);
    send(&mut rx, zero_job("late", &[1, 1, 1, 1]));
    let batch = collect_batch(2, &mut rx, 2, 10).unwrap().unwrap();
    assert_eq!(batch.ids, vec!["late", "DUMMY-2"]);
    assert_eq!(rx.now(), 15);
    assert!(!rx.is_closed());
    rx.pause(100);
    rx.close();
    assert!(collect_batch(2, &mut rx, 2, 10).unwrap().is_none());
    assert_eq!(rx.now(), 105);
    assert!(rx.is_closed());
}
