//! Workers, which walk a route of their own on an errand.
use vstd::prelude::*;

verus! {

/// One of the eight ways a step can go.
#[derive(Clone, Copy, Debug, PartialEq, Eq, Structural)]
pub enum Heading {
    Up,
    UpRight,
    Right,
    DownRight,
    Down,
    DownLeft,
    Left,
    UpLeft,
}

impl Heading {
    /// The way from `from` to `to`; none if the two are the same cell.
    pub open spec fn between(from: (i32, i32), to: (i32, i32)) -> Option<Heading> {
        if from.0 < to.0 {
            if from.1 < to.1 {
                Some(Heading::UpRight)
            } else if from.1 > to.1 {
                Some(Heading::DownRight)
            } else {
                Some(Heading::Right)
            }
        } else if from.0 > to.0 {
            if from.1 < to.1 {
                Some(Heading::UpLeft)
            } else if from.1 > to.1 {
                Some(Heading::DownLeft)
            } else {
                Some(Heading::Left)
            }
        } else {
            if from.1 < to.1 {
                Some(Heading::Up)
            } else if from.1 > to.1 {
                Some(Heading::Down)
            } else {
                None
            }
        }
    }

    /// The way from `from` to `to`; none if the two are the same cell.
    pub fn towards(from: (i32, i32), to: (i32, i32)) -> (heading: Option<Heading>)
        ensures
            heading == Heading::between(from, to),
    {
        if from.0 < to.0 {
            if from.1 < to.1 {
                Some(Heading::UpRight)
            } else if from.1 > to.1 {
                Some(Heading::DownRight)
            } else {
                Some(Heading::Right)
            }
        } else if from.0 > to.0 {
            if from.1 < to.1 {
                Some(Heading::UpLeft)
            } else if from.1 > to.1 {
                Some(Heading::DownLeft)
            } else {
                Some(Heading::Left)
            }
        } else {
            if from.1 < to.1 {
                Some(Heading::Up)
            } else if from.1 > to.1 {
                Some(Heading::Down)
            } else {
                None
            }
        }
    }
}

/// An errand: places to go to, in world coordinates, and the time to spend
/// at each, in milliseconds.
#[derive(Debug, PartialEq, Eq)]
pub struct Task {
    pub task_times: Vec<u64>,
    pub goals: Vec<(i64, i64)>,
}

/// A worker.  Its position is a cell; its speed is in cells per second;
/// `time_since_path_started` is the time, in milliseconds, at which it set
/// out on `path`.
#[derive(Debug, PartialEq, Eq)]
pub struct Worker {
    pub health: i64,
    pub position: (i32, i32),
    pub facing: Heading,
    pub speed: u32,
    pub path: Vec<(i32, i32)>,
    pub task: Task,
    pub time_since_path_started: u64,
    pub available_for_task: bool,
    pub ready_for_new_path: bool,
}

impl Clone for Task {
    fn clone(&self) -> (copy: Task)
        ensures
            copy.task_times@ == self.task_times@,
            copy.goals@ == self.goals@,
    {
        let mut task_times: Vec<u64> = Vec::new();
        let mut i: usize = 0;
        while i < self.task_times.len()
            invariant
                i <= self.task_times@.len(),
                task_times@ == self.task_times@.take(i as int),
            decreases self.task_times@.len() - i,
        {
            task_times.push(self.task_times[i]);
            assert(task_times@ =~= self.task_times@.take(i + 1));
            i += 1;
        }
        assert(task_times@ =~= self.task_times@);
        let mut goals: Vec<(i64, i64)> = Vec::new();
        let mut j: usize = 0;
        while j < self.goals.len()
            invariant
                j <= self.goals@.len(),
                goals@ == self.goals@.take(j as int),
            decreases self.goals@.len() - j,
        {
            goals.push(self.goals[j]);
            assert(goals@ =~= self.goals@.take(j + 1));
            j += 1;
        }
        assert(goals@ =~= self.goals@);
        Task { task_times, goals }
    }
}

impl Clone for Worker {
    fn clone(&self) -> (copy: Worker)
        ensures
            copy.health == self.health,
            copy.position == self.position,
            copy.facing == self.facing,
            copy.speed == self.speed,
            copy.path@ == self.path@,
            copy.task.task_times@ == self.task.task_times@,
            copy.task.goals@ == self.task.goals@,
            copy.time_since_path_started == self.time_since_path_started,
            copy.available_for_task == self.available_for_task,
            copy.ready_for_new_path == self.ready_for_new_path,
    {
        let mut path: Vec<(i32, i32)> = Vec::new();
        let mut i: usize = 0;
        while i < self.path.len()
            invariant
                i <= self.path@.len(),
                path@ == self.path@.take(i as int),
            decreases self.path@.len() - i,
        {
            path.push(self.path[i]);
            assert(path@ =~= self.path@.take(i + 1));
            i += 1;
        }
        assert(path@ =~= self.path@);
        Worker {
            health: self.health,
            position: self.position,
            facing: self.facing,
            speed: self.speed,
            path,
            task: self.task.clone(),
            time_since_path_started: self.time_since_path_started,
            available_for_task: self.available_for_task,
            ready_for_new_path: self.ready_for_new_path,
        }
    }
}

/// What a task holds.
pub struct TaskView {
    pub task_times: Seq<u64>,
    pub goals: Seq<(i64, i64)>,
}

impl View for Task {
    type V = TaskView;

    open spec fn view(&self) -> TaskView {
        TaskView { task_times: self.task_times@, goals: self.goals@ }
    }
}

/// What a worker holds.
pub struct WorkerView {
    pub health: i64,
    pub position: (i32, i32),
    pub facing: Heading,
    pub speed: u32,
    pub path: Seq<(i32, i32)>,
    pub task: TaskView,
    pub time_since_path_started: u64,
    pub available_for_task: bool,
    pub ready_for_new_path: bool,
}

impl View for Worker {
    type V = WorkerView;

    open spec fn view(&self) -> WorkerView {
        WorkerView {
            health: self.health,
            position: self.position,
            facing: self.facing,
            speed: self.speed,
            path: self.path@,
            task: self.task@,
            time_since_path_started: self.time_since_path_started,
            available_for_task: self.available_for_task,
            ready_for_new_path: self.ready_for_new_path,
        }
    }
}

/// The time that has passed at `now_ms` since `started_ms`; none if
/// `now_ms` is the earlier.
pub open spec fn elapsed_since(started_ms: u64, now_ms: u64) -> int {
    if now_ms >= started_ms {
        now_ms - started_ms
    } else {
        0
    }
}

/// The waypoint that a worker of speed `speed` has come to `elapsed_ms`
/// milliseconds after setting out.
pub open spec fn waypoint_index(speed: u32, elapsed_ms: int) -> int {
    elapsed_ms * speed / 1000
}

/// Whether a worker that has walked a path of `path_len` waypoints still
/// has to wait at its end, where it spends `wait_ms` milliseconds.
pub open spec fn still_waiting(path_len: int, speed: u32, wait_ms: int, elapsed_ms: int) -> bool {
    path_len * 1000 + wait_ms * speed > elapsed_ms * speed
}

impl WorkerView {
    /// The time to spend at the end of the path: the first time of the
    /// task, or none if the task names no time.
    pub open spec fn wait_ms(self) -> int {
        if self.task.task_times.len() > 0 {
            self.task.task_times[0] as int
        } else {
            0
        }
    }

    /// The waypoint that the worker has come to at `now_ms`.
    pub open spec fn index_at(self, now_ms: u64) -> int {
        waypoint_index(self.speed, elapsed_since(self.time_since_path_started, now_ms))
    }

    /// Whether the worker is on its path at `now_ms`.
    pub open spec fn walking_at(self, now_ms: u64) -> bool {
        self.index_at(now_ms) < self.path.len()
    }

    /// Whether the worker has walked its path and spent its time at the end
    /// at `now_ms`.
    pub open spec fn done_at(self, now_ms: u64) -> bool {
        !self.walking_at(now_ms) && !still_waiting(
            self.path.len() as int,
            self.speed,
            self.wait_ms(),
            elapsed_since(self.time_since_path_started, now_ms),
        )
    }

    /// The cell that the worker stands on at `now_ms`.
    pub open spec fn position_at(self, now_ms: u64) -> (i32, i32) {
        if self.walking_at(now_ms) {
            self.path[self.index_at(now_ms)]
        } else {
            self.position
        }
    }

    /// The way that the worker faces at `now_ms`.
    pub open spec fn facing_at(self, now_ms: u64) -> Heading {
        match Heading::between(self.position, self.position_at(now_ms)) {
            Some(heading) => heading,
            None => self.facing,
        }
    }

    /// The worker brought to where it is at `now_ms`.  While on its path it
    /// stands on the waypoint it has come to and faces the way it came
    /// there.  At the end of the path it waits for the time of its task, and
    /// is then ready for a new path.
    pub open spec fn advanced(self, now_ms: u64) -> WorkerView {
        WorkerView {
            position: self.position_at(now_ms),
            facing: self.facing_at(now_ms),
            ready_for_new_path: self.ready_for_new_path || self.done_at(now_ms),
            ..self
        }
    }

    /// The worker after it has taken `task` at `now_ms` and set out on
    /// `route`.
    pub open spec fn took(self, task: TaskView, route: Seq<(i32, i32)>, now_ms: u64) -> WorkerView {
        WorkerView {
            path: route,
            task,
            time_since_path_started: now_ms,
            available_for_task: false,
            ..self
        }
    }
}

/// Time to pick up what lies at the first place of an errand, and time to
/// put it down at the second, in milliseconds.
pub const HANDLING_MS: u64 = 500;

impl Task {
    /// The errand of fetching what lies at `place` and bringing it home, to
    /// the middle of the battlefield.
    pub fn collect(place: (i64, i64)) -> (task: Task)
        ensures
            task@ == (TaskView {
                task_times: seq![HANDLING_MS, HANDLING_MS],
                goals: seq![place, (0i64, 0i64)],
            }),
    {
        let mut task_times: Vec<u64> = Vec::new();
        task_times.push(HANDLING_MS);
        task_times.push(HANDLING_MS);
        let mut goals: Vec<(i64, i64)> = Vec::new();
        goals.push(place);
        goals.push((0, 0));
        assert(task_times@ =~= seq![HANDLING_MS, HANDLING_MS]);
        assert(goals@ =~= seq![place, (0i64, 0i64)]);
        Task { task_times, goals }
    }
}

impl Worker {
    /// Brings the worker to where it is at `now_ms`.
    pub fn advance(&mut self, now_ms: u64)
        ensures
            final(self)@ == old(self)@.advanced(now_ms),
    {
        let elapsed: u64 = if now_ms >= self.time_since_path_started {
            now_ms - self.time_since_path_started
        } else {
            0
        };
        assert(0 <= elapsed * self.speed <= 0xffff_ffff_ffff_ffff * 0xffff_ffff) by (nonlinear_arith)
            requires
                0 <= elapsed <= 0xffff_ffff_ffff_ffff,
                0 <= self.speed <= 0xffff_ffff,
        ;
        let covered: u128 = (elapsed as u128) * (self.speed as u128);
        let index: u128 = covered / 1000;
        let path_len = self.path.len();
        if index < path_len as u128 {
            let next = self.path[index as usize];
            match Heading::towards(self.position, next) {
                Some(heading) => {
                    self.facing = heading;
                },
                None => {},
            }
            self.position = next;
        } else {
            let wait: u64 = if self.task.task_times.len() > 0 {
                self.task.task_times[0]
            } else {
                0
            };
            assert(0 <= wait * self.speed <= 0xffff_ffff_ffff_ffff * 0xffff_ffff) by (nonlinear_arith)
                requires
                    0 <= wait <= 0xffff_ffff_ffff_ffff,
                    0 <= self.speed <= 0xffff_ffff,
            ;
            let budget: u128 = (path_len as u128) * 1000 + (wait as u128) * (self.speed as u128);
            if !(budget > covered) {
                self.ready_for_new_path = true;
            }
        }
    }

    /// The worker takes `task` at `now_ms` and sets out on `route`.
    pub fn take_task(&mut self, task: Task, route: Vec<(i32, i32)>, now_ms: u64)
        ensures
            final(self)@ == old(self)@.took(task@, route@, now_ms),
    {
        self.task = task;
        self.path = route;
        self.time_since_path_started = now_ms;
        self.available_for_task = false;
    }
}

} // verus!
