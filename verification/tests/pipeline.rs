use std::cell::RefCell;
use std::rc::Rc;
use thecs::{Scene, Schedule, Stage, System, SystemArg, SystemFunction, TypeInfo};

struct Created(usize);

impl SystemArg for Created {
    fn from_scene(scene: &Scene) -> Self {
        Created(scene.created())
    }
}

struct Flag(Option<Vec<u8>>);

impl SystemArg for Flag {
    fn from_scene(scene: &Scene) -> Self {
        Flag(scene.get_resource(1).cloned())
    }
}

struct Note {
    log: Rc<RefCell<Vec<String>>>,
    text: String,
}

impl System for Note {
    fn run(&self, scene: &Scene) {
        self.log.borrow_mut().push(format!("{} {}", self.text, scene.len()));
    }
}

#[test]
fn stage_runs_its_systems_in_the_order_they_were_added() {
    let log = Rc::new(RefCell::new(Vec::new()));
    let mut stage = Stage::new();
    assert_eq!(stage.len(), 0);
    let first = log.clone();
    stage.add_system(move || first.borrow_mut().push(String::from("first")));
    let second = log.clone();
    stage.add_system(move |created: Created| {
        second.borrow_mut().push(format!("second {}", created.0))
    });
    let third = log.clone();
    stage.add_system(move |created: Created, flag: Flag| {
        third.borrow_mut().push(format!("third {} {:?}", created.0, flag.0))
    });
    assert_eq!(stage.len(), 3);
    let mut scene = Scene::new();
    scene
        .create_actor(vec![(TypeInfo::new(1, 1, 1, false), vec![1])])
        .unwrap();
    scene.insert_resource(1, vec![5]);
    stage.run(&scene);
    assert_eq!(
        *log.borrow(),
        vec!["first", "second 1", "third 1 Some([5])"]
    );
    stage.run(&scene);
    assert_eq!(log.borrow().len(), 6);
}

#[test]
fn schedule_runs_its_stages_in_the_order_they_were_added() {
    let log = Rc::new(RefCell::new(Vec::new()));
    let mut early = Stage::new();
    let a = log.clone();
    early.add_system(move || a.borrow_mut().push(1));
    let b = log.clone();
    early.add_system(move || b.borrow_mut().push(2));
    let mut late = Stage::default();
    let c = log.clone();
    late.add_system(move || c.borrow_mut().push(3));
    let mut schedule = Schedule::new();
    assert_eq!(schedule.len(), 0);
    schedule.add_stage(early);
    schedule.add_stage(Stage::new());
    schedule.add_stage(late);
    assert_eq!(schedule.len(), 3);
    schedule.run(&Scene::new());
    assert_eq!(*log.borrow(), vec![1, 2, 3]);
}

#[test]
fn empty_schedule_runs_nothing() {
    Schedule::default().run(&Scene::new());
    Stage::new().run(&Scene::new());
}

#[test]
fn system_function_runs_its_function_on_arguments_from_the_scene() {
    let seen = Rc::new(RefCell::new(Vec::new()));
    let sink = seen.clone();
    let system = SystemFunction::new(move |created: Created| sink.borrow_mut().push(created.0));
    let mut scene = Scene::new();
    system.run(&scene);
    scene.create_actor(vec![]).unwrap();
    scene.create_actor(vec![]).unwrap();
    system.run(&scene);
    assert_eq!(*seen.borrow(), vec![0, 2]);
}

#[test]
fn function_of_ten_arguments_is_a_system() {
    let seen = Rc::new(RefCell::new(0));
    let sink = seen.clone();
    let mut stage = Stage::new();
    stage.add_system(
        move |a: Created,
              b: Created,
              c: Created,
              d: Created,
              e: Created,
              f: Created,
              g: Created,
              h: Created,
              i: Created,
              j: Created| {
            *sink.borrow_mut() = a.0 + b.0 + c.0 + d.0 + e.0 + f.0 + g.0 + h.0 + i.0 + j.0;
        },
    );
    let mut scene = Scene::new();
    scene.create_actor(vec![]).unwrap();
    scene.create_actor(vec![]).unwrap();
    scene.create_actor(vec![]).unwrap();
    stage.run(&scene);
    assert_eq!(*seen.borrow(), 30);
}

#[test]
fn a_system_of_ones_own_can_be_boxed_and_run() {
    let log = Rc::new(RefCell::new(Vec::new()));
    let note = Note { log: log.clone(), text: String::from("alive") };
    let mut scene = Scene::new();
    scene.create_actor(vec![]).unwrap();
    let boxed: Box<dyn System> = Box::new(note);
    boxed.run(&scene);
    assert_eq!(*log.borrow(), vec!["alive 1"]);
}
