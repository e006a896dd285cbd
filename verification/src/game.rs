//! The battlefield as a whole: the navigation and the entities that move
//! over it.
use vstd::prelude::*;
use crate::enemy::Enemy;
use crate::grid::empty_field;
use crate::grid::with_building;
use crate::navigation::{main_building, Navigation, Terrain};
use crate::coords::cell_of;
use crate::grid::{GridMap, GridSpace};
use crate::pathing::{find_path, found_path};
use crate::worker::{Task, TaskView, Worker, WorkerView, HANDLING_MS};

verus! {

/// The state that a pass over the hostile entities works on.
pub struct Battle {
    pub terrain: Terrain,
    pub alive: Seq<Enemy>,
    pub dead: Seq<Enemy>,
}

/// `b` after the living entity at `index` has had its turn.  One without
/// health moves to the dead.  Another takes its step on the built flow
/// field; if it has reached a structure, it leaves the battlefield and the
/// structure loses as much health as the entity has.
pub open spec fn after_enemy(b: Battle, index: int, elapsed_ms: u32) -> Battle {
    let enemy = b.alive[index];
    if enemy.health <= 0 {
        Battle { alive: b.alive.remove(index), dead: b.dead.push(enemy), ..b }
    } else {
        let ready = b.terrain.readied();
        let space = ready.space_at(enemy.position);
        if Enemy::arrives(space) {
            Battle {
                terrain: ready.struck(space.building->Some_0.id, enemy.health),
                alive: b.alive.remove(index),
                ..b
            }
        } else {
            Battle {
                terrain: ready,
                alive: b.alive.update(index, enemy.stepped(space, elapsed_ms)),
                ..b
            }
        }
    }
}

/// `b` after the first `count` living entities have had their turns, the
/// last of them first.
pub open spec fn after_enemies(b: Battle, count: int, elapsed_ms: u32) -> Battle
    decreases count,
{
    if count <= 0 {
        b
    } else {
        after_enemies(after_enemy(b, count - 1, elapsed_ms), count - 1, elapsed_ms)
    }
}

/// The state that a pass over the workers works on.
pub struct Crew {
    pub workers: Seq<WorkerView>,
    pub tasks: Seq<TaskView>,
}

/// What the workers of `list` hold.
pub open spec fn worker_views(list: Seq<Worker>) -> Seq<WorkerView> {
    Seq::new(list.len(), |i: int| list[i]@)
}

/// What the tasks of `list` hold.
pub open spec fn task_views(list: Seq<Task>) -> Seq<TaskView> {
    Seq::new(list.len(), |i: int| list[i]@)
}

/// The cell that `task` leads to first, if it names a place.
pub open spec fn goal_cell(task: TaskView) -> Option<(i32, i32)> {
    if task.goals.len() > 0 {
        Some((cell_of(task.goals[0].0 as int) as i32, cell_of(task.goals[0].1 as int) as i32))
    } else {
        None
    }
}

/// The route on which a worker at `position` sets out on `task`: the path
/// found to the cell that the task leads to first, none if no path is
/// found, and the empty route if the task names no place.
pub open spec fn route_for(field: Seq<Seq<GridSpace>>, position: (i32, i32), task: TaskView) -> Option<
    Seq<(i32, i32)>,
> {
    match goal_cell(task) {
        Some(goal) => found_path(field, position, goal),
        None => Some(Seq::empty()),
    }
}

/// `crew` after the worker at `index` has had its turn at `now_ms`.  One
/// without health leaves.  One that is available takes the first task that
/// waits, provided a route leads to it; else the task goes on waiting.  The
/// worker is then brought to where it is at `now_ms`.
pub open spec fn after_worker(
    crew: Crew,
    field: Seq<Seq<GridSpace>>,
    index: int,
    now_ms: u64,
) -> Crew {
    let worker = crew.workers[index];
    if worker.health <= 0 {
        Crew { workers: crew.workers.remove(index), ..crew }
    } else if worker.available_for_task && crew.tasks.len() > 0 && route_for(
        field,
        worker.position,
        crew.tasks[0],
    ) is Some {
        let route = route_for(field, worker.position, crew.tasks[0])->Some_0;
        Crew {
            workers: crew.workers.update(
                index,
                worker.took(crew.tasks[0], route, now_ms).advanced(now_ms),
            ),
            tasks: crew.tasks.remove(0),
        }
    } else {
        Crew { workers: crew.workers.update(index, worker.advanced(now_ms)), ..crew }
    }
}

/// `crew` after the first `count` workers have had their turns, the last of
/// them first.
pub open spec fn after_workers(
    crew: Crew,
    field: Seq<Seq<GridSpace>>,
    count: int,
    now_ms: u64,
) -> Crew
    decreases count,
{
    if count <= 0 {
        crew
    } else {
        after_workers(after_worker(crew, field, count - 1, now_ms), field, count - 1, now_ms)
    }
}

/// Whether the dead entity at `index` is the first in `dead` whose box
/// holds the point `(x, y)`.
pub open spec fn is_first_hit(dead: Seq<Enemy>, x: i64, y: i64, index: int) -> bool {
    &&& 0 <= index < dead.len()
    &&& dead[index].hitbox().holds(x, y)
    &&& forall|i: int| 0 <= i < index ==> !(#[trigger] dead[i]).hitbox().holds(x, y)
}

/// What the errand of fetching what lies at `place` holds.
pub open spec fn collect_view(place: (i64, i64)) -> TaskView {
    TaskView { task_times: seq![HANDLING_MS, HANDLING_MS], goals: seq![place, (0i64, 0i64)] }
}

/// Calls `rand::Rng::gen_range` on the thread's generator for a number
/// from nothing up to, and without, `bound`.  Trusted: the number drawn lies
/// in the range asked for.  The range must not be empty.
#[verifier::external_body]
fn random_below(bound: u32) -> (drawn: u32)
    requires
        bound > 0,
    ensures
        drawn < bound,
{
    rand::Rng::gen_range(&mut rand::thread_rng(), 0..bound)
}

/// Calls `rand::random` for a sign.  Nothing is promised of the outcome.
#[verifier::external_body]
fn random_sign() -> bool {
    rand::random()
}

/// The battlefield.
pub struct Game {
    pub navigation: Navigation,
    pub enemy_alive_list: Vec<Enemy>,
    pub enemy_dead_list: Vec<Enemy>,
    pub worker_task_list: Vec<Task>,
    pub worker_list: Vec<Worker>,
}

impl Game {
    /// The game's invariant.
    pub open spec fn wf(&self) -> bool {
        self.navigation.wf()
    }

    /// The state that a pass over the hostile entities works on.
    pub open spec fn battle(&self) -> Battle {
        Battle {
            terrain: self.navigation@,
            alive: self.enemy_alive_list@,
            dead: self.enemy_dead_list@,
        }
    }

    /// The state that a pass over the workers works on.
    pub open spec fn crew(&self) -> Crew {
        Crew {
            workers: worker_views(self.worker_list@),
            tasks: task_views(self.worker_task_list@),
        }
    }

    /// The route on which a worker at `position` sets out on `task`.
    fn plan_route(map: &GridMap, position: (i32, i32), task: &Task) -> (route: Option<
        Vec<(i32, i32)>,
    >)
        requires
            map.wf(),
        ensures
            crate::pathing::path_view(route) == route_for(map@, position, task@),
    {
        if task.goals.len() > 0 {
            let cell = GridMap::convert_position_to_grid_position(task.goals[0]);
            find_path(map, position, (cell.0 as i32, cell.1 as i32))
        } else {
            let none: Vec<(i32, i32)> = Vec::new();
            assert(none@ =~= Seq::<(i32, i32)>::empty());
            Some(none)
        }
    }

    /// Gives every worker its turn at `now_ms`, the last in the list first.
    /// A worker without health leaves.  One that is available takes the
    /// first task that waits and sets out on the path found to the place
    /// that the task leads to first; if no path is found, the task goes on
    /// waiting.  Each worker is then brought to where it is at `now_ms`.
    pub fn manage_workers(&mut self, now_ms: u64)
        requires
            old(self).wf(),
        ensures
            final(self).wf(),
            final(self).crew() == after_workers(
                old(self).crew(),
                old(self).navigation@.field,
                old(self).worker_list@.len() as int,
                now_ms,
            ),
            forall|i: int|
                0 <= i < final(self).worker_list@.len() ==> (
                #[trigger] final(self).worker_list@[i]).health > 0,
            final(self).navigation == old(self).navigation,
            final(self).enemy_alive_list == old(self).enemy_alive_list,
            final(self).enemy_dead_list == old(self).enemy_dead_list,
    {
        proof {
            lemma_pass_leaves_the_healthy(
                self.crew(),
                self.navigation@.field,
                self.worker_list@.len() as int,
                now_ms,
            );
        }
        let mut index: usize = self.worker_list.len();
        while index > 0
            invariant
                self.wf(),
                index <= self.worker_list@.len(),
                after_workers(self.crew(), self.navigation@.field, index as int, now_ms)
                    == after_workers(
                    old(self).crew(),
                    old(self).navigation@.field,
                    old(self).worker_list@.len() as int,
                    now_ms,
                ),
                self.navigation == old(self).navigation,
                self.enemy_alive_list == old(self).enemy_alive_list,
                self.enemy_dead_list == old(self).enemy_dead_list,
            decreases index,
        {
            index -= 1;
            let ghost before = self.crew();
            let ghost field = self.navigation@.field;
            if self.worker_list[index].health <= 0 {
                self.worker_list.remove(index);
                assert(self.crew().workers =~= before.workers.remove(index as int));
            } else {
                let mut taken = false;
                if self.worker_list[index].available_for_task && self.worker_task_list.len() > 0 {
                    let route = Game::plan_route(
                        self.navigation.map(),
                        self.worker_list[index].position,
                        &self.worker_task_list[0],
                    );
                    match route {
                        Some(path) => {
                            let task = self.worker_task_list.remove(0);
                            self.worker_list[index].take_task(task, path, now_ms);
                            taken = true;
                        },
                        None => {},
                    }
                }
                self.worker_list[index].advance(now_ms);
                proof {
                    let worker = before.workers[index as int];
                    if taken {
                        let route = route_for(field, worker.position, before.tasks[0])->Some_0;
                        assert(self.crew().workers =~= before.workers.update(
                            index as int,
                            worker.took(before.tasks[0], route, now_ms).advanced(now_ms),
                        ));
                        assert(self.crew().tasks =~= before.tasks.remove(0));
                    } else {
                        assert(self.crew().workers =~= before.workers.update(
                            index as int,
                            worker.advanced(now_ms),
                        ));
                        assert(self.crew().tasks =~= before.tasks);
                    }
                }
            }
            assert(self.crew() == after_worker(before, field, index as int, now_ms));
        }
        assert forall|i: int| 0 <= i < self.worker_list@.len() implies (
        #[trigger] self.worker_list@[i]).health > 0 by {
            assert(self.crew().workers[i].health == self.worker_list@[i].health);
        }
    }

    /// A click at the point `(x, y)` of the battlefield: the first dead
    /// entity whose box holds the point is to be fetched, and the errand
    /// joins the tasks that wait.  Says which entity was picked, if any.
    pub fn initiate_task(&mut self, x: i64, y: i64) -> (picked: Option<usize>)
        ensures
            final(self).navigation == old(self).navigation,
            final(self).enemy_alive_list == old(self).enemy_alive_list,
            final(self).enemy_dead_list == old(self).enemy_dead_list,
            final(self).worker_list == old(self).worker_list,
            match picked {
                Some(index) => {
                    &&& is_first_hit(old(self).enemy_dead_list@, x, y, index as int)
                    &&& final(self).crew().tasks == old(self).crew().tasks.push(
                        collect_view(old(self).enemy_dead_list@[index as int].position),
                    )
                },
                None => {
                    &&& forall|i: int|
                        0 <= i < old(self).enemy_dead_list@.len() ==> !(#[trigger] old(
                            self,
                        ).enemy_dead_list@[i]).hitbox().holds(x, y)
                    &&& final(self).worker_task_list == old(self).worker_task_list
                },
            },
    {
        let mut index: usize = 0;
        while index < self.enemy_dead_list.len()
            invariant
                *self == *old(self),
                index <= self.enemy_dead_list@.len(),
                forall|i: int|
                    0 <= i < index ==> !(#[trigger] self.enemy_dead_list@[i]).hitbox().holds(x, y),
            decreases self.enemy_dead_list@.len() - index,
        {
            let bad_guy = self.enemy_dead_list[index];
            if bad_guy.get_hitbox().contains(x, y) {
                let ghost before = self.crew().tasks;
                self.worker_task_list.push(Task::collect(bad_guy.position));
                assert(self.crew().tasks =~= before.push(collect_view(bad_guy.position)));
                return Some(index);
            }
            index += 1;
        }
        None
    }

    /// Lets a hostile entity enter at a place on the edge of the
    /// battlefield that is drawn at random, with health and size drawn at
    /// random.
    pub fn spawn_enemy(&mut self)
        ensures
            final(self).navigation == old(self).navigation,
            final(self).enemy_dead_list == old(self).enemy_dead_list,
            final(self).worker_task_list == old(self).worker_task_list,
            final(self).worker_list == old(self).worker_list,
            exists|ratio: u32, side: i8, negate: bool|
                ratio < 1000 && 1 <= side <= 4 && final(self).enemy_alive_list@ == old(
                    self,
                ).enemy_alive_list@.push(#[trigger] Enemy::spawned(ratio, side, negate)),
    {
        let ratio = random_below(1000);
        let side = (random_below(4) + 1) as i8;
        let negate = random_sign();
        self.enemy_alive_list.push(Enemy::spawn(ratio, side, negate));
    }

    /// Gives every living hostile entity its turn for a tick of
    /// `elapsed_ms` milliseconds, the last in the list first, so that taking
    /// one out of the list moves none that is still to come.  An entity
    /// without health moves to the dead.  Another takes its step on the flow
    /// field; one that has reached a structure leaves the battlefield, and
    /// the structure loses as much health as the entity has.
    pub fn manage_enemies(&mut self, elapsed_ms: u32)
        requires
            old(self).wf(),
        ensures
            final(self).wf(),
            final(self).battle() == after_enemies(
                old(self).battle(),
                old(self).enemy_alive_list@.len() as int,
                elapsed_ms,
            ),
            forall|i: int|
                0 <= i < final(self).enemy_alive_list@.len() ==> (
                #[trigger] final(self).enemy_alive_list@[i]).health > 0,
            final(self).worker_task_list == old(self).worker_task_list,
            final(self).worker_list == old(self).worker_list,
    {
        proof {
            lemma_pass_leaves_the_living(
                self.battle(),
                self.enemy_alive_list@.len() as int,
                elapsed_ms,
            );
        }
        let mut index: usize = self.enemy_alive_list.len();
        while index > 0
            invariant
                self.wf(),
                index <= self.enemy_alive_list@.len(),
                after_enemies(self.battle(), index as int, elapsed_ms) == after_enemies(
                    old(self).battle(),
                    old(self).enemy_alive_list@.len() as int,
                    elapsed_ms,
                ),
                self.worker_task_list == old(self).worker_task_list,
                self.worker_list == old(self).worker_list,
            decreases index,
        {
            index -= 1;
            let ghost before = self.battle();
            let enemy = self.enemy_alive_list[index];
            if enemy.health <= 0 {
                self.enemy_dead_list.push(enemy);
                self.enemy_alive_list.remove(index);
            } else {
                self.navigation.ensure_built();
                let mut moved = enemy;
                let reached = moved.reach_base_check(elapsed_ms, self.navigation.map());
                if reached {
                    self.enemy_alive_list.remove(index);
                    match moved.building_hit {
                        Some(id) => self.navigation.strike_building(id, enemy.health),
                        None => {},
                    }
                } else {
                    self.enemy_alive_list[index] = moved;
                }
            }
            assert(self.battle() == after_enemy(before, index as int, elapsed_ms));
        }
    }
}

impl Default for Game {
    /// A new game: the main structure stands, the flow field is not built,
    /// and there are no entities.
    fn default() -> (game: Game)
        ensures
            game.wf(),
            game.navigation@ == (Terrain {
                field: with_building(empty_field(), 0, main_building()),
                built: false,
                structures: seq![(0u32, main_building())],
            }),
            game.enemy_alive_list@.len() == 0,
            game.enemy_dead_list@.len() == 0,
            game.worker_task_list@.len() == 0,
            game.worker_list@.len() == 0,
    {
        Game {
            navigation: Navigation::new(),
            enemy_alive_list: Vec::new(),
            enemy_dead_list: Vec::new(),
            worker_task_list: Vec::new(),
            worker_list: Vec::new(),
        }
    }
}

/// After a pass over the hostile entities, every one that is still among
/// the living has health: none that had lost its health was passed over.
pub proof fn lemma_pass_leaves_the_living(b: Battle, count: int, elapsed_ms: u32)
    requires
        0 <= count <= b.alive.len(),
        forall|i: int| count <= i < b.alive.len() ==> (#[trigger] b.alive[i]).health > 0,
    ensures
        forall|i: int|
            0 <= i < after_enemies(b, count, elapsed_ms).alive.len() ==> (#[trigger] after_enemies(
                b,
                count,
                elapsed_ms,
            ).alive[i]).health > 0,
        after_enemies(b, count, elapsed_ms).alive.len() <= b.alive.len(),
    decreases count,
{
    if count > 0 {
        let next = after_enemy(b, count - 1, elapsed_ms);
        assert forall|i: int| count - 1 <= i < next.alive.len() implies (#[trigger] next.alive[i]).health
            > 0 by {
            if next.alive.len() == b.alive.len() {
                if i >= count {
                    assert(next.alive[i] == b.alive[i]);
                }
            } else {
                assert(next.alive[i] == b.alive[i + 1]);
            }
        }
        lemma_pass_leaves_the_living(next, count - 1, elapsed_ms);
    }
}

/// After a pass over the workers, every one that is still in the crew has
/// health, and no task has appeared that was not waiting before.
pub proof fn lemma_pass_leaves_the_healthy(
    crew: Crew,
    field: Seq<Seq<GridSpace>>,
    count: int,
    now_ms: u64,
)
    requires
        0 <= count <= crew.workers.len(),
        forall|i: int| count <= i < crew.workers.len() ==> (#[trigger] crew.workers[i]).health > 0,
    ensures
        forall|i: int|
            0 <= i < after_workers(crew, field, count, now_ms).workers.len() ==> (
            #[trigger] after_workers(crew, field, count, now_ms).workers[i]).health > 0,
        after_workers(crew, field, count, now_ms).workers.len() <= crew.workers.len(),
        after_workers(crew, field, count, now_ms).tasks.len() <= crew.tasks.len(),
    decreases count,
{
    if count > 0 {
        let next = after_worker(crew, field, count - 1, now_ms);
        assert forall|i: int| count - 1 <= i < next.workers.len() implies (
        #[trigger] next.workers[i]).health > 0 by {
            if next.workers.len() == crew.workers.len() {
                if i >= count {
                    assert(next.workers[i] == crew.workers[i]);
                }
            } else {
                assert(next.workers[i] == crew.workers[i + 1]);
            }
        }
        lemma_pass_leaves_the_healthy(next, field, count - 1, now_ms);
    }
}

} // verus!
