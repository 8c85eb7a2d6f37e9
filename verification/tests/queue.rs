use pcap2csv::queue::{prepare_batch, JobQueue};

fn names(list: &[&str]) -> Vec<String> {
    list.iter().map(|s| s.to_string()).collect()
}

#[test]
fn queue_hands_out_in_discovery_order() {
    let mut queue = JobQueue::new(names(&["a.pcap", "b.pcap", "c.pcap"]));
    assert_eq!(queue.len(), 3);
    assert_eq!(queue.take_one(), Some("a.pcap".to_string()));
    assert_eq!(queue.take_one(), Some("b.pcap".to_string()));
    assert_eq!(queue.len(), 1);
    assert_eq!(queue.take_one(), Some("c.pcap".to_string()));
    assert!(queue.is_empty());
}

#[test]
fn drained_queue_stays_empty() {
    let mut queue = JobQueue::new(vec![7u32]);
    assert_eq!(queue.take_one(), Some(7));
    assert_eq!(queue.take_one(), None);
    assert_eq!(queue.take_one(), None);
    assert_eq!(queue.len(), 0);
    assert!(queue.is_empty());
}

#[test]
fn empty_queue_has_nothing_to_hand_out() {
    let mut queue: JobQueue<String> = JobQueue::new(Vec::new());
    assert!(queue.is_empty());
    assert_eq!(queue.len(), 0);
    assert_eq!(queue.take_one(), None);
}

#[test]
fn every_job_is_handed_out_exactly_once() {
    let files: Vec<u32> = (0..100).collect();
    let mut queue = JobQueue::new(files.clone());
    let mut seen = Vec::new();
    while let Some(job) = queue.take_one() {
        seen.push(job);
    }
    assert_eq!(seen, files);
}

#[test]
fn len_counts_what_is_left() {
    let mut queue = JobQueue::new(vec!['x', 'y', 'z']);
    for left in (0..3).rev() {
        assert!(!queue.is_empty());
        queue.take_one();
        assert_eq!(queue.len(), left);
    }
}

#[test]
fn no_input_gives_no_batch() {
    let batch: Option<JobQueue<String>> = prepare_batch(Vec::new());
    assert!(batch.is_none());
}

#[test]
fn found_input_gives_a_batch_with_every_file() {
    let mut queue = prepare_batch(names(&["a.pcap", "b.pcap"])).expect("two files were found");
    assert_eq!(queue.len(), 2);
    assert_eq!(queue.take_one(), Some("a.pcap".to_string()));
    assert_eq!(queue.take_one(), Some("b.pcap".to_string()));
    assert_eq!(queue.take_one(), None);
}

#[test]
fn workers_sharing_a_queue_split_the_files_between_them() {
    // Two workers take turns in an uneven pattern; together they get every
    // file once, as a single worker would.
    let files: Vec<u32> = (0..10).collect();
    let mut shared = JobQueue::new(files.clone());
    let mut first = Vec::new();
    let mut second = Vec::new();
    let mut turn = 0;
    loop {
        let job = shared.take_one();
        match job {
            Some(job) => {
                if turn % 3 == 0 {
                    first.push(job);
                } else {
                    second.push(job);
                }
            }
            None => break,
        }
        turn += 1;
    }
    let mut together: Vec<u32> = first.iter().chain(second.iter()).copied().collect();
    together.sort();
    assert_eq!(together, files);
    assert_eq!(first, vec![0, 3, 6, 9]);
}
