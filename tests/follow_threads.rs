use epoll_spy::follow_threads::{vec_contains, TaskInfo, ThreadExpansion};

fn sorted(mut v: Vec<u32>) -> Vec<u32> {
    v.sort();
    v
}

fn task(tid: i32, children: Option<Vec<u32>>) -> Option<TaskInfo> {
    Some(TaskInfo { tid, children })
}

#[test]
fn two_threads_no_children() {
    let mut exp = ThreadExpansion::new(&vec![100]);
    assert_eq!(exp.next_pid(), Some(100));
    exp.record(Some(vec![task(100, Some(vec![])), task(101, Some(vec![]))]));
    assert_eq!(exp.next_pid(), None);
    assert_eq!(sorted(exp.found), vec![100, 101]);
}

#[test]
fn two_other_threads_are_added_to_the_set() {
    let mut exp = ThreadExpansion::new(&vec![7, 100]);
    let mut inspected = Vec::new();
    while let Some(pid) = exp.next_pid() {
        inspected.push(pid);
        if pid == 100 {
            exp.record(Some(vec![task(201, None), task(202, None)]));
        } else {
            exp.record(None);
        }
    }
    assert_eq!(sorted(inspected.iter().map(|p| *p as u32).collect()), vec![7, 100]);
    assert_eq!(sorted(exp.found), vec![7, 100, 201, 202]);
}

#[test]
fn vanished_process_contributes_nothing() {
    let mut exp = ThreadExpansion::new(&vec![555]);
    assert_eq!(exp.next_pid(), Some(555));
    exp.record(None);
    assert_eq!(exp.next_pid(), None);
    assert_eq!(exp.found, vec![555]);
}

#[test]
fn children_are_expanded_recursively() {
    let mut exp = ThreadExpansion::new(&vec![10]);
    while let Some(pid) = exp.next_pid() {
        match pid {
            10 => exp.record(Some(vec![task(10, Some(vec![20])), task(11, Some(vec![30]))])),
            20 => exp.record(Some(vec![task(20, Some(vec![40])), task(21, None)])),
            30 => exp.record(Some(vec![task(30, Some(vec![]))])),
            40 => exp.record(Some(vec![task(40, Some(vec![])), None])),
            _ => panic!("unexpected pid {}", pid),
        }
    }
    assert_eq!(sorted(exp.found), vec![10, 11, 20, 21, 30, 40]);
}

#[test]
fn each_process_is_inspected_once() {
    let mut exp = ThreadExpansion::new(&vec![1, 1, 2]);
    let mut inspected = Vec::new();
    while let Some(pid) = exp.next_pid() {
        inspected.push(pid);
        exp.record(Some(vec![task(pid, Some(vec![1, 2]))]));
    }
    assert_eq!(sorted(inspected.iter().map(|p| *p as u32).collect()), vec![1, 2]);
    assert_eq!(sorted(exp.found), vec![1, 2]);
}

#[test]
fn ids_beyond_i32_are_kept_but_not_inspected() {
    let mut exp = ThreadExpansion::new(&vec![u32::MAX, 3]);
    assert_eq!(exp.next_pid(), Some(3));
    exp.record(Some(vec![task(0, None), task(-4, None)]));
    assert_eq!(exp.next_pid(), None);
    assert_eq!(sorted(exp.found), vec![3, u32::MAX]);
    assert!(vec_contains(&vec![3, 4], 4));
    assert!(!vec_contains(&vec![3, 4], 5));
}

#[test]
fn next_pid_passes_over_large_ids_only() {
    let mut exp = ThreadExpansion::new(&vec![5, u32::MAX, 6, 0x8000_0000]);
    let mut inspected = Vec::new();
    while let Some(pid) = exp.next_pid() {
        inspected.push(pid);
        exp.record(None);
    }
    inspected.sort();
    assert_eq!(inspected, vec![5, 6]);
    assert!(exp.pending.is_empty());
    assert_eq!(sorted(exp.found), vec![5, 6, 0x8000_0000, u32::MAX]);
}

#[test]
fn next_pid_shrinks_the_queue() {
    let mut exp = ThreadExpansion::new(&vec![1, 2, 3]);
    assert_eq!(exp.pending.len(), 3);
    assert!(exp.next_pid().is_some());
    assert_eq!(exp.pending.len(), 2);
    exp.record(Some(vec![task(1, Some(vec![9]))]));
    assert_eq!(exp.pending.len(), 3);
    assert_eq!(exp.queued.len(), 4);
}
