use coop_scheduler::{
    Level, PinCommand, ResourceError, SchedulerError, Shot, Task, TaskPriority, TaskResource,
    TaskScheduler, TaskStatus, TaskStep,
};

fn blink(shots: Shot) -> Task {
    Task::new(
        "Blink Blue LED",
        TaskPriority::High,
        shots,
        vec![
            TaskStep::WriteGPIO(2, Level::High),
            TaskStep::Yield(1000),
            TaskStep::WriteGPIO(2, Level::Low),
            TaskStep::Yield(1000),
        ],
    )
    .assign(TaskResource::Pin(2))
}

/// Runs one cycle per millisecond from `from` up to `to` and gives the
/// reports of the cycles that dispatched a task, each with its clock reading.
fn run(scheduler: &mut TaskScheduler, from: u64, to: u64) -> Vec<(u64, Option<PinCommand>, TaskStatus)> {
    let mut log = Vec::new();
    for now in from..to {
        if let Some(report) = scheduler.tick(now).unwrap() {
            log.push((now, report.command, report.status));
        }
    }
    log
}

#[test]
fn a_blinking_task_runs_its_passes_one_step_per_dispatch() {
    let mut scheduler = TaskScheduler::with_queue_size(Some(22), 10).unwrap();
    scheduler.schedule(blink(Shot::Custom(2)));
    let log = run(&mut scheduler, 0, 4000);
    assert_eq!(
        log,
        vec![
            (0, Some(PinCommand::Write(2, Level::High)), TaskStatus::Ready),
            (1, None, TaskStatus::Blocked),
            (1002, Some(PinCommand::Write(2, Level::Low)), TaskStatus::Ready),
            (1003, None, TaskStatus::Blocked),
            (2004, Some(PinCommand::Write(2, Level::High)), TaskStatus::Ready),
            (2005, None, TaskStatus::Blocked),
            (3006, Some(PinCommand::Write(2, Level::Low)), TaskStatus::Ready),
            (3007, None, TaskStatus::Blocked),
        ]
    );
    let task = &scheduler.queue(TaskStatus::Blocked)[0];
    assert_eq!(*task.context().program_counter(), 4);
    assert_eq!(*task.shots(), Shot::Custom(1));
    assert_eq!(*task.context().state(), TaskStatus::Blocked);
}

#[test]
fn a_program_that_ends_in_a_yield_is_blocked_at_the_end_of_each_pass_and_never_exits() {
    let mut scheduler = TaskScheduler::with_queue_size(Some(22), 10).unwrap();
    scheduler.schedule(blink(Shot::Custom(2)));
    let log = run(&mut scheduler, 0, 20_000);
    assert_eq!(log.len(), 40);
    assert!(log.iter().all(|(_, _, status)| *status != TaskStatus::Exited));
    let parked = scheduler.queue(TaskStatus::Blocked).len() + scheduler.queue(TaskStatus::Ready).len();
    assert_eq!(parked, 1);
}

#[test]
fn a_blinking_task_that_ends_on_a_write_exits_after_its_last_pass() {
    let mut scheduler = TaskScheduler::with_queue_size(Some(22), 10).unwrap();
    scheduler.schedule(
        Task::new(
            "Blink Green LED",
            TaskPriority::High,
            Shot::Custom(2),
            vec![
                TaskStep::Yield(1000),
                TaskStep::WriteGPIO(4, Level::High),
                TaskStep::Yield(1000),
                TaskStep::WriteGPIO(4, Level::Low),
            ],
        )
        .assign(TaskResource::Pin(4)),
    );
    let log = run(&mut scheduler, 0, 20_000);
    assert_eq!(log.len(), 12);
    assert_eq!(log.iter().filter(|(_, _, status)| *status == TaskStatus::Blocked).count(), 6);
    assert_eq!(log[11].1, Some(PinCommand::Write(4, Level::Low)));
    assert_eq!(log[11].2, TaskStatus::Exited);
    assert!(log[..11].iter().all(|(_, _, status)| *status != TaskStatus::Exited));
    for status in [TaskStatus::New, TaskStatus::Ready, TaskStatus::Blocked, TaskStatus::Exited] {
        assert!(scheduler.queue(status).is_empty());
    }
}

#[test]
fn high_runs_before_low_until_it_blocks() {
    let mut scheduler = TaskScheduler::with_queue_size(Some(22), 1).unwrap();
    let mut high = Task::new(
        "high",
        TaskPriority::High,
        Shot::Infinity,
        vec![TaskStep::WriteGPIO(2, Level::High), TaskStep::Yield(50)],
    )
    .assign(TaskResource::Pin(2));
    let mut low = Task::new(
        "low",
        TaskPriority::Low,
        Shot::Infinity,
        vec![TaskStep::WriteGPIO(4, Level::Low)],
    )
    .assign(TaskResource::Pin(4));
    high.context_mut().set_state(TaskStatus::Ready);
    low.context_mut().set_state(TaskStatus::Ready);
    let high_id = *high.context().id();
    let low_id = *low.context().id();
    scheduler.schedule_bulk(vec![low, high]);

    let first = scheduler.tick(0).unwrap().unwrap();
    assert_eq!((first.task, first.status), (high_id, TaskStatus::Ready));
    assert_eq!(*scheduler.queue(TaskStatus::Ready)[0].context().program_counter(), 0);
    let second = scheduler.tick(1).unwrap().unwrap();
    assert_eq!((second.task, second.status), (high_id, TaskStatus::Blocked));
    let third = scheduler.tick(2).unwrap().unwrap();
    assert_eq!((third.task, third.command), (low_id, Some(PinCommand::Write(4, Level::Low))));
}

#[test]
fn high_runs_before_low_until_it_exits() {
    let mut scheduler = TaskScheduler::with_queue_size(Some(22), 1).unwrap();
    let high = Task::new(
        "high",
        TaskPriority::High,
        Shot::Custom(0),
        vec![TaskStep::WriteGPIO(2, Level::High), TaskStep::WriteGPIO(2, Level::Low)],
    )
    .assign(TaskResource::Pin(2));
    let low = Task::new(
        "low",
        TaskPriority::Low,
        Shot::Infinity,
        vec![TaskStep::WriteGPIO(4, Level::Low)],
    )
    .assign(TaskResource::Pin(4));
    let high_id = *high.context().id();
    let low_id = *low.context().id();
    scheduler.schedule_bulk(vec![low, high]);

    let first = scheduler.tick(0).unwrap().unwrap();
    assert_eq!((first.task, first.status), (high_id, TaskStatus::Ready));
    assert_eq!(scheduler.queue(TaskStatus::New).len(), 1);
    let second = scheduler.tick(1).unwrap().unwrap();
    assert_eq!((second.task, second.status), (high_id, TaskStatus::Exited));
    assert_eq!(scheduler.queue(TaskStatus::New).len(), 1);
    let third = scheduler.tick(2).unwrap().unwrap();
    assert_eq!((third.task, third.status), (low_id, TaskStatus::Ready));
    assert_eq!(scheduler.queue(TaskStatus::New).len(), 0);
}

#[test]
fn a_step_on_an_undeclared_pin_ends_the_loop() {
    let mut scheduler = TaskScheduler::new(Some(22)).unwrap();
    scheduler.schedule(
        Task::new(
            "stray",
            TaskPriority::Normal,
            Shot::Infinity,
            vec![TaskStep::WriteGPIO(2, Level::High), TaskStep::WriteGPIO(4, Level::High)],
        )
        .assign(TaskResource::Pin(2)),
    );
    let mut now = 0;
    let error = loop {
        match scheduler.tick(now) {
            Ok(_) => now += 1,
            Err(error) => break error,
        }
    };
    assert_eq!(error, SchedulerError::Resource(ResourceError::NotDeclared(4)));
    assert_eq!(now, 1);
    assert!(scheduler.queue(TaskStatus::Ready).is_empty());
}
