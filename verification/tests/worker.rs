use last_hope::worker::{Heading, Task, Worker};

fn worker(path: Vec<(i32, i32)>, speed: u32, started: u64, waits: Vec<u64>) -> Worker {
    Worker {
        health: 100_000,
        position: (0, 0),
        facing: Heading::Down,
        speed,
        path,
        task: Task { task_times: waits, goals: vec![(1, 2)] },
        time_since_path_started: started,
        available_for_task: false,
        ready_for_new_path: false,
    }
}

#[test]
fn headings_between_cells() {
    assert_eq!(Heading::towards((5, 5), (5, 5)), None);
    assert_eq!(Heading::towards((5, 5), (5, 9)), Some(Heading::Up));
    assert_eq!(Heading::towards((5, 5), (6, 6)), Some(Heading::UpRight));
    assert_eq!(Heading::towards((5, 5), (9, 5)), Some(Heading::Right));
    assert_eq!(Heading::towards((5, 5), (6, 4)), Some(Heading::DownRight));
    assert_eq!(Heading::towards((5, 5), (5, -4)), Some(Heading::Down));
    assert_eq!(Heading::towards((5, 5), (4, 4)), Some(Heading::DownLeft));
    assert_eq!(Heading::towards((5, 5), (i32::MIN, 5)), Some(Heading::Left));
    assert_eq!(Heading::towards((5, 5), (4, i32::MAX)), Some(Heading::UpLeft));
}

#[test]
fn worker_walks_its_path_at_its_speed() {
    let path = vec![(1, 1), (2, 2), (3, 2), (3, 1)];
    let mut w = worker(path.clone(), 2, 10_000, vec![500]);
    w.advance(10_000);
    assert_eq!(w.position, (1, 1));
    assert_eq!(w.facing, Heading::UpRight);
    w.advance(10_499);
    assert_eq!(w.position, (1, 1));
    assert_eq!(w.facing, Heading::UpRight);
    w.advance(10_500);
    assert_eq!(w.position, (2, 2));
    w.advance(11_000);
    assert_eq!(w.position, (3, 2));
    assert_eq!(w.facing, Heading::Right);
    w.advance(11_999);
    assert_eq!(w.position, (3, 1));
    assert_eq!(w.facing, Heading::Down);
    assert!(!w.ready_for_new_path);
    assert_eq!(w.path, path);
    assert_eq!(w.time_since_path_started, 10_000);
    assert!(!w.available_for_task);
}

#[test]
fn worker_waits_at_the_end_and_is_then_ready() {
    let mut w = worker(vec![(1, 1), (2, 2), (3, 2), (3, 1)], 2, 10_000, vec![500, 900]);
    // The path takes two seconds, the wait half a second more.
    w.advance(12_000);
    assert_eq!(w.position, (0, 0));
    assert!(!w.ready_for_new_path);
    w.advance(12_499);
    assert!(!w.ready_for_new_path);
    w.advance(12_500);
    assert!(w.ready_for_new_path);
    assert_eq!(w.position, (0, 0));
    assert_eq!(w.facing, Heading::Down);
    // Ready stays ready.
    w.advance(10_000);
    assert!(w.ready_for_new_path);
    assert_eq!(w.position, (1, 1));
}

#[test]
fn worker_before_its_start_stands_on_the_first_waypoint() {
    let mut w = worker(vec![(4, 4), (5, 5)], 3, 10_000, vec![0]);
    w.advance(5);
    assert_eq!(w.position, (4, 4));
    assert!(!w.ready_for_new_path);
}

#[test]
fn worker_without_speed_or_path() {
    let mut still = worker(vec![(4, 4), (5, 5)], 0, 0, vec![0]);
    still.advance(u64::MAX);
    assert_eq!(still.position, (4, 4));
    assert!(!still.ready_for_new_path);

    let mut idle = worker(vec![], 0, 0, vec![1_000]);
    idle.advance(1);
    assert_eq!(idle.position, (0, 0));
    assert!(idle.ready_for_new_path);

    let mut waiting = worker(vec![], 5, 100, vec![1_000]);
    waiting.advance(1_099);
    assert!(!waiting.ready_for_new_path);
    waiting.advance(1_100);
    assert!(waiting.ready_for_new_path);

    let mut no_wait = worker(vec![], 5, 100, vec![]);
    no_wait.advance(0);
    assert!(no_wait.ready_for_new_path);
}

#[test]
fn worker_with_large_numbers() {
    let mut w = worker(vec![(1, 1)], u32::MAX, 0, vec![u64::MAX]);
    w.advance(u64::MAX);
    assert_eq!(w.position, (0, 0));
    assert!(!w.ready_for_new_path);
    let mut w = worker(vec![(1, 1)], u32::MAX, 0, vec![u64::MAX - 1]);
    w.advance(u64::MAX);
    assert!(w.ready_for_new_path);
}

#[test]
fn taking_a_task_starts_a_path() {
    let mut w = worker(vec![(9, 9)], 2, 10, vec![1]);
    w.available_for_task = true;
    w.ready_for_new_path = true;
    let task = Task { task_times: vec![500, 500], goals: vec![(7, 7), (0, 0)] };
    w.take_task(task.clone(), vec![(0, 0), (1, 1)], 777);
    assert_eq!(w.task, task);
    assert_eq!(w.path, vec![(0, 0), (1, 1)]);
    assert_eq!(w.time_since_path_started, 777);
    assert!(!w.available_for_task);
    assert!(w.ready_for_new_path);
    assert_eq!(w.position, (0, 0));
    assert_eq!(w.health, 100_000);
    assert_eq!(w.speed, 2);
}

#[test]
fn clones_are_equal() {
    let w = worker(vec![(1, 1), (2, 2)], 2, 10, vec![1, 2, 3]);
    assert_eq!(w.clone(), w);
    assert_eq!(w.task.clone(), w.task);
}

#[test]
fn collecting_takes_half_a_second_at_each_end() {
    let task = Task::collect((12_000, -7_000));
    assert_eq!(task.task_times, vec![500, 500]);
    assert_eq!(task.goals, vec![(12_000, -7_000), (0, 0)]);
}
