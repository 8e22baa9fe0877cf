use script_router::decision::WorkerRequest;
use script_router::queue::Queue;
use script_router::queue::QueueError;

fn request(n: u16) -> (String, u16) {
    (format!("10.0.0.{}", n), n)
}

#[test]
fn enqueue_without_workers_fails_fast() {
    let mut q: Queue<(String, u16), &'static str> = Queue::new();
    assert_eq!(q.enqueue(request(1), "a"), Err(QueueError::NoWorkersAvailable));
    assert!(q.next_job(0).is_none());
}

#[test]
fn enqueue_after_all_workers_left_fails_fast() {
    let mut q: Queue<(String, u16), &'static str> = Queue::new();
    let w = q.add_worker();
    assert!(q.remove_worker(w));
    assert!(!q.remove_worker(w));
    assert_eq!(q.enqueue(request(1), "a"), Err(QueueError::NoWorkersAvailable));
}

#[test]
fn decision_is_delivered_once() {
    let mut q: Queue<(String, u16), &'static str> = Queue::new();
    let w = q.add_worker();
    let id = q.enqueue(request(1), "handle").unwrap();
    let job: WorkerRequest<(String, u16)> = q.next_job(w).unwrap();
    assert_eq!(job.job_id, id);
    assert_eq!(job.value, request(1));
    assert_eq!(q.send_response(id), Some("handle"));
    assert_eq!(q.send_response(id), None);
    assert!(!q.remove_job(id));
}

#[test]
fn canceled_job_is_not_delivered() {
    let mut q: Queue<(String, u16), &'static str> = Queue::new();
    let w = q.add_worker();
    let id = q.enqueue(request(1), "handle").unwrap();
    assert!(q.next_job(w).is_some());
    assert!(q.remove_job(id));
    assert!(!q.remove_job(id));
    assert_eq!(q.send_response(id), None);
}

#[test]
fn canceled_job_leaves_the_backlog() {
    let mut q: Queue<(String, u16), u8> = Queue::new();
    let w = q.add_worker();
    let a = q.enqueue(request(1), 1).unwrap();
    let b = q.enqueue(request(2), 2).unwrap();
    assert!(q.remove_job(a));
    let job = q.next_job(w).unwrap();
    assert_eq!(job.job_id, b);
    assert_eq!(job.value, request(2));
}

#[test]
fn busy_worker_gets_no_second_job() {
    let mut q: Queue<(String, u16), u8> = Queue::new();
    let w = q.add_worker();
    let a = q.enqueue(request(1), 1).unwrap();
    let b = q.enqueue(request(2), 2).unwrap();
    assert_eq!(q.next_job(w).unwrap().job_id, a);
    assert!(q.next_job(w).is_none());
    q.finish_job(w);
    assert_eq!(q.next_job(w).unwrap().job_id, b);
}

#[test]
fn unknown_worker_gets_nothing() {
    let mut q: Queue<(String, u16), u8> = Queue::new();
    let w = q.add_worker();
    q.enqueue(request(1), 1).unwrap();
    assert!(q.next_job(w + 1).is_none());
    assert!(q.next_job(w).is_some());
}

#[test]
fn late_worker_drains_backlog_in_arrival_order() {
    let mut q: Queue<(String, u16), u8> = Queue::new();
    let first = q.add_worker();
    let mut ids = vec![];
    for n in 0..5u16 {
        ids.push(q.enqueue(request(n), n as u8).unwrap());
    }
    assert!(q.remove_worker(first));
    let late = q.add_worker();
    assert_eq!(late, 1);
    assert!(q.next_job(first).is_none());
    for (n, id) in ids.iter().enumerate() {
        let job = q.next_job(late).unwrap();
        assert_eq!(job.job_id, *id);
        assert_eq!(job.value, request(n as u16));
        q.finish_job(late);
    }
    assert!(q.next_job(late).is_none());
}

#[test]
fn live_job_ids_are_distinct() {
    let mut q: Queue<(String, u16), u16> = Queue::new();
    q.add_worker();
    let mut ids = vec![];
    for n in 0..200u16 {
        ids.push(q.enqueue(request(n), n).unwrap());
    }
    let mut sorted = ids.clone();
    sorted.sort();
    sorted.dedup();
    assert_eq!(sorted.len(), ids.len());
    for (n, id) in ids.iter().enumerate() {
        assert_eq!(q.send_response(*id), Some(n as u16));
    }
}

#[test]
fn jobs_spread_over_two_workers() {
    let mut q: Queue<(String, u16), u8> = Queue::new();
    let w0 = q.add_worker();
    let w1 = q.add_worker();
    let a = q.enqueue(request(1), 1).unwrap();
    let b = q.enqueue(request(2), 2).unwrap();
    assert_eq!(q.next_job(w1).unwrap().job_id, a);
    assert_eq!(q.next_job(w0).unwrap().job_id, b);
    assert_eq!(q.send_response(b), Some(2));
    assert_eq!(q.send_response(a), Some(1));
}
