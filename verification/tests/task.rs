use coop_scheduler::{
    Level, PinCommand, Request, ResourceError, ResourceManager, SchedulerError, Shot, StepOutcome,
    Task, TaskContext, TaskPriority, TaskResource, TaskStatus, TaskStep,
};

fn pool() -> ResourceManager {
    ResourceManager::new(Some(22)).unwrap()
}

fn blink(shots: Shot) -> Task {
    Task::new(
        "blink",
        TaskPriority::High,
        shots,
        vec![
            TaskStep::WriteGPIO(2, Level::High),
            TaskStep::Yield(1000),
            TaskStep::WriteGPIO(2, Level::Low),
            TaskStep::Yield(1000),
        ],
    )
    .assign(TaskResource::Pin(2))
}

#[test]
fn a_new_context_starts_from_scratch() {
    let context = TaskContext::new(String::from("Blink Blue LED"), TaskPriority::Low);
    assert_eq!(context.name(), "Blink Blue LED");
    assert_eq!(*context.priority(), TaskPriority::Low);
    assert_eq!(*context.state(), TaskStatus::New);
    assert_eq!(*context.program_counter(), 0);
    assert!(context.pins_used().is_empty());
    assert!(context.block_requests().is_empty());
    assert_eq!(*context.last_run_timestamp(), 0);
    assert_eq!(*context.last_pin_read_level_register(), Level::Low);
    assert!(context.is_free());
}

#[test]
fn the_default_context_is_nameless_and_low() {
    let context = TaskContext::default();
    assert_eq!(context.name(), "");
    assert_eq!(*context.priority(), TaskPriority::Low);
    assert_eq!(*context.state(), TaskStatus::New);
    assert_eq!(*context.program_counter(), 0);
}

#[test]
fn identifiers_are_random_uuids() {
    let first = TaskContext::new(String::from("a"), TaskPriority::Low);
    let second = TaskContext::new(String::from("a"), TaskPriority::Low);
    for id in [*first.id(), *second.id(), *TaskContext::default().id()] {
        assert_eq!((id >> 76) & 0xF, 4);
        assert_eq!((id >> 62) & 0x3, 2);
        assert_eq!(uuid::Uuid::from_u128(id).get_version_num(), 4);
    }
    assert_ne!(first.id(), second.id());
    let task = blink(Shot::Infinity);
    assert_eq!(uuid::Uuid::from_u128(*task.context().id()).get_version_num(), 4);
}

#[test]
fn context_setters_change_one_field_and_chain() {
    let mut context = TaskContext::new(String::from("t"), TaskPriority::Low);
    context
        .set_priority(TaskPriority::Custom(7))
        .set_state(TaskStatus::Suspended)
        .set_program_counter(3)
        .set_pins_used(vec![1, 2])
        .set_block_requests(vec![Request::Yield(5)])
        .set_last_run_timestamp(99)
        .set_last_pin_read_level_register(Level::High);
    assert_eq!(*context.priority(), TaskPriority::Custom(7));
    assert_eq!(*context.state(), TaskStatus::Suspended);
    assert_eq!(*context.program_counter(), 3);
    assert_eq!(context.pins_used(), &vec![1, 2]);
    assert_eq!(context.block_requests(), &vec![Request::Yield(5)]);
    assert_eq!(*context.last_run_timestamp(), 99);
    assert_eq!(*context.last_pin_read_level_register(), Level::High);
    assert_eq!(context.name(), "t");
}

#[test]
fn context_fields_change_in_place() {
    let mut context = TaskContext::new(String::from("t"), TaskPriority::Low);
    *context.priority_mut() = TaskPriority::High;
    *context.state_mut() = TaskStatus::Ready;
    *context.program_counter_mut() += 2;
    context.pins_used_mut().push(9);
    context.block_requests_mut().push(Request::Yield(1));
    *context.last_run_timestamp_mut() = 12;
    *context.last_pin_read_level_register_mut() = Level::High;
    assert_eq!(*context.priority(), TaskPriority::High);
    assert_eq!(*context.state(), TaskStatus::Ready);
    assert_eq!(*context.program_counter(), 2);
    assert_eq!(context.pins_used(), &vec![9]);
    assert_eq!(context.block_requests(), &vec![Request::Yield(1)]);
    assert_eq!(*context.last_run_timestamp(), 12);
    assert_eq!(*context.last_pin_read_level_register(), Level::High);
}

#[test]
fn declared_pins_are_remembered_in_order() {
    let mut context = TaskContext::new(String::from("t"), TaskPriority::Low);
    assert!(!context.declares(2));
    context.declare(2);
    context.declare(4);
    context.declare(2);
    assert!(context.declares(2));
    assert!(context.declares(4));
    assert!(!context.declares(3));
    assert_eq!(context.pins_used(), &vec![2, 4, 2]);
}

#[test]
fn resolving_drops_the_waits_that_are_over_and_keeps_the_rest_in_order() {
    let mut context = TaskContext::new(String::from("t"), TaskPriority::Low);
    context.set_last_run_timestamp(100);
    context.block_on(Request::Yield(50));
    context.block_on(Request::Yield(10));
    context.block_on(Request::Yield(30));
    context.block_on(Request::Yield(50));
    context.resolve(109);
    assert_eq!(context.block_requests().len(), 4);
    context.resolve(130);
    assert_eq!(context.block_requests(), &vec![Request::Yield(50), Request::Yield(50)]);
    assert!(!context.is_free());
    context.resolve(149);
    assert_eq!(context.block_requests().len(), 2);
    context.resolve(150);
    assert!(context.is_free());
}

#[test]
fn a_new_task_holds_what_it_was_given() {
    let task = Task::new(
        "Blink Green LED",
        TaskPriority::Custom(200),
        Shot::Custom(5),
        vec![TaskStep::Yield(1000), TaskStep::ReadGPIO(4)],
    );
    assert_eq!(task.context().name(), "Blink Green LED");
    assert_eq!(*task.context().priority(), TaskPriority::Custom(200));
    assert_eq!(*task.context().state(), TaskStatus::New);
    assert_eq!(*task.context().program_counter(), 0);
    assert!(task.context().pins_used().is_empty());
    assert_eq!(*task.shots(), Shot::Custom(5));
    assert_eq!(task.steps(), &vec![TaskStep::Yield(1000), TaskStep::ReadGPIO(4)]);
}

#[test]
fn assign_declares_without_checking_and_chains() {
    let task = Task::new("t", TaskPriority::Low, Shot::Infinity, vec![])
        .assign(TaskResource::Pin(2))
        .assign(TaskResource::Pin(4000))
        .assign(TaskResource::Pin(-3));
    assert_eq!(task.context().pins_used(), &vec![2, 4000, -3]);
    assert_eq!(*task.context().state(), TaskStatus::New);
    assert_eq!(*task.shots(), Shot::Infinity);
}

#[test]
fn task_fields_can_be_replaced() {
    let mut task = blink(Shot::Custom(1));
    task.set_shots(Shot::Infinity);
    assert_eq!(*task.shots(), Shot::Infinity);
    *task.shots_mut() = Shot::Custom(9);
    assert_eq!(*task.shots(), Shot::Custom(9));
    task.context_mut().set_state(TaskStatus::Blocked);
    assert_eq!(*task.context().state(), TaskStatus::Blocked);
    let replacement = TaskContext::new(String::from("other"), TaskPriority::Low);
    let id = *replacement.id();
    task.set_context(replacement);
    assert_eq!(task.context().name(), "other");
    assert_eq!(*task.context().id(), id);
    assert_eq!(task.steps().len(), 4);
}

#[test]
fn a_write_step_becomes_a_command_on_the_lent_pin() {
    let manager = pool();
    let context = {
        let mut c = TaskContext::new(String::from("t"), TaskPriority::Low);
        c.declare(2);
        c
    };
    assert_eq!(
        TaskStep::WriteGPIO(2, Level::High).execute(&context, &manager),
        Ok(StepOutcome::Command(PinCommand::Write(2, Level::High)))
    );
    assert_eq!(
        TaskStep::WriteGPIO(2, Level::Low).execute(&context, &manager),
        Ok(StepOutcome::Command(PinCommand::Write(2, Level::Low)))
    );
    assert_eq!(
        TaskStep::ReadGPIO(2).execute(&context, &manager),
        Ok(StepOutcome::Command(PinCommand::Read(2)))
    );
}

#[test]
fn a_yield_step_becomes_a_wait_of_the_same_length() {
    let manager = pool();
    let context = TaskContext::new(String::from("t"), TaskPriority::Low);
    assert_eq!(
        TaskStep::Yield(1000).execute(&context, &manager),
        Ok(StepOutcome::Pending(Request::Yield(1000)))
    );
    assert_eq!(
        TaskStep::Yield(0).execute(&context, &manager),
        Ok(StepOutcome::Pending(Request::Yield(0)))
    );
    assert_eq!(
        TaskStep::Yield(u32::MAX).execute(&context, &manager),
        Ok(StepOutcome::Pending(Request::Yield(u32::MAX as usize)))
    );
    assert!(context.block_requests().is_empty());
}

#[test]
fn a_step_on_a_pin_needs_the_pin() {
    let manager = pool();
    let mut context = TaskContext::new(String::from("t"), TaskPriority::Low);
    context.declare(2);
    context.declare(40);
    assert_eq!(
        TaskStep::WriteGPIO(4, Level::High).execute(&context, &manager),
        Err(ResourceError::NotDeclared(4))
    );
    assert_eq!(
        TaskStep::ReadGPIO(4).execute(&context, &manager),
        Err(ResourceError::NotDeclared(4))
    );
    assert_eq!(
        TaskStep::ReadGPIO(40).execute(&context, &manager),
        Err(ResourceError::NotFound(40))
    );
    assert_eq!(
        TaskStep::WriteGPIO(40, Level::Low).execute(&context, &manager),
        Err(ResourceError::NotFound(40))
    );
}

#[test]
fn stepping_walks_the_program_and_records_waits() {
    let manager = pool();
    let mut task = blink(Shot::Custom(2));
    assert_eq!(task.step(&manager), Ok(Some(PinCommand::Write(2, Level::High))));
    assert_eq!(*task.context().program_counter(), 1);
    assert!(task.context().block_requests().is_empty());
    assert_eq!(task.step(&manager), Ok(None));
    assert_eq!(*task.context().program_counter(), 2);
    assert_eq!(task.context().block_requests(), &vec![Request::Yield(1000)]);
    assert_eq!(task.step(&manager), Ok(Some(PinCommand::Write(2, Level::Low))));
    assert_eq!(*task.context().program_counter(), 3);
    assert_eq!(task.step(&manager), Ok(None));
    assert_eq!(*task.context().program_counter(), 4);
    assert_eq!(
        task.context().block_requests(),
        &vec![Request::Yield(1000), Request::Yield(1000)]
    );
    assert_eq!(*task.shots(), Shot::Custom(2));
}

#[test]
fn a_step_at_the_end_wraps_around_and_consumes_a_pass() {
    let manager = pool();
    let mut task = blink(Shot::Custom(2));
    for _ in 0..4 {
        task.step(&manager).unwrap();
    }
    assert_eq!(*task.shots(), Shot::Custom(2));
    assert_eq!(task.step(&manager), Ok(Some(PinCommand::Write(2, Level::High))));
    assert_eq!(*task.context().program_counter(), 1);
    assert_eq!(*task.shots(), Shot::Custom(1));
    for _ in 0..3 {
        task.step(&manager).unwrap();
    }
    assert_eq!(*task.shots(), Shot::Custom(1));
    task.step(&manager).unwrap();
    assert_eq!(*task.shots(), Shot::Custom(0));
    for _ in 0..4 {
        task.step(&manager).unwrap();
    }
    assert_eq!(*task.shots(), Shot::Custom(0));
    assert_eq!(*task.context().program_counter(), 1);
}

#[test]
fn a_program_counter_beyond_the_end_wraps_too() {
    let manager = pool();
    let mut task = blink(Shot::Infinity);
    task.context_mut().set_program_counter(usize::MAX);
    assert_eq!(task.step(&manager), Ok(Some(PinCommand::Write(2, Level::High))));
    assert_eq!(*task.context().program_counter(), 1);
    assert_eq!(*task.shots(), Shot::Infinity);
}

#[test]
fn an_empty_program_has_no_step_to_run() {
    let manager = pool();
    let mut task = Task::new("idle", TaskPriority::Low, Shot::Custom(3), vec![]);
    assert_eq!(task.step(&manager), Err(SchedulerError::ProgramCounterOutOfBounds));
    assert_eq!(*task.context().program_counter(), 0);
    assert_eq!(*task.shots(), Shot::Custom(2));
    assert_eq!(task.step(&manager), Err(SchedulerError::ProgramCounterOutOfBounds));
    assert_eq!(*task.shots(), Shot::Custom(1));
}

#[test]
fn a_refused_step_still_advances_the_counter() {
    let manager = pool();
    let mut task = Task::new(
        "t",
        TaskPriority::Low,
        Shot::Infinity,
        vec![TaskStep::WriteGPIO(4, Level::High), TaskStep::ReadGPIO(2)],
    )
    .assign(TaskResource::Pin(2));
    assert_eq!(
        task.step(&manager),
        Err(SchedulerError::Resource(ResourceError::NotDeclared(4)))
    );
    assert_eq!(*task.context().program_counter(), 1);
    assert!(task.context().block_requests().is_empty());
    assert_eq!(task.step(&manager), Ok(Some(PinCommand::Read(2))));
}

#[test]
fn settling_follows_pending_then_end_of_pass() {
    let manager = pool();
    let mut task = Task::new(
        "t",
        TaskPriority::Low,
        Shot::Custom(0),
        vec![TaskStep::Yield(5), TaskStep::ReadGPIO(2)],
    )
    .assign(TaskResource::Pin(2));
    task.step(&manager).unwrap();
    assert_eq!(task.settle(), TaskStatus::Blocked);
    assert_eq!(*task.context().state(), TaskStatus::Blocked);
    task.resolve(5);
    assert!(task.context().is_free());
    task.step(&manager).unwrap();
    assert_eq!(task.settle(), TaskStatus::Exited);
    assert_eq!(*task.context().state(), TaskStatus::Exited);

    let mut bounded = Task::new("t", TaskPriority::Low, Shot::Custom(1), vec![TaskStep::ReadGPIO(2)])
        .assign(TaskResource::Pin(2));
    bounded.step(&manager).unwrap();
    assert_eq!(bounded.settle(), TaskStatus::Ready);

    let mut unbounded = Task::new("t", TaskPriority::Low, Shot::Infinity, vec![TaskStep::ReadGPIO(2)])
        .assign(TaskResource::Pin(2));
    unbounded.step(&manager).unwrap();
    assert_eq!(unbounded.settle(), TaskStatus::Ready);
}

#[test]
fn running_performs_the_rest_of_the_pass() {
    let manager = pool();
    let mut task = blink(Shot::Custom(3));
    task.step(&manager).unwrap();
    let mut performed = vec![StepOutcome::Pending(Request::Yield(1))];
    assert_eq!(task.run(&manager, &mut performed), Ok(()));
    assert_eq!(
        performed,
        vec![
            StepOutcome::Pending(Request::Yield(1)),
            StepOutcome::Pending(Request::Yield(1000)),
            StepOutcome::Command(PinCommand::Write(2, Level::Low)),
            StepOutcome::Pending(Request::Yield(1000)),
        ]
    );
    assert_eq!(*task.context().program_counter(), 4);
    assert_eq!(*task.shots(), Shot::Custom(3));
    assert!(task.context().block_requests().is_empty());
}

#[test]
fn running_consumes_a_pass_only_at_the_wrap_around() {
    let manager = pool();
    let mut task = blink(Shot::Custom(3));
    let mut performed = Vec::new();
    task.run(&manager, &mut performed).unwrap();
    assert_eq!(*task.shots(), Shot::Custom(3));
    assert_eq!(performed.len(), 4);
    task.run(&manager, &mut performed).unwrap();
    assert_eq!(*task.shots(), Shot::Custom(2));
    assert_eq!(performed.len(), 8);
    assert_eq!(*task.context().program_counter(), 4);
}

#[test]
fn running_a_one_step_task_twice_consumes_one_pass() {
    let manager = pool();
    let mut task = Task::new("t", TaskPriority::Low, Shot::Custom(5), vec![TaskStep::Yield(1)]);
    let mut performed = Vec::new();
    assert_eq!(task.run(&manager, &mut performed), Ok(()));
    assert_eq!(*task.context().program_counter(), 1);
    assert_eq!(*task.shots(), Shot::Custom(5));
    assert_eq!(task.run(&manager, &mut performed), Ok(()));
    assert_eq!(*task.context().program_counter(), 1);
    assert_eq!(*task.shots(), Shot::Custom(4));
    assert_eq!(
        performed,
        vec![StepOutcome::Pending(Request::Yield(1)), StepOutcome::Pending(Request::Yield(1))]
    );
}

#[test]
fn running_and_stepping_leave_the_same_task() {
    let manager = pool();
    let mut ran = blink(Shot::Custom(3));
    let mut stepped = ran.clone();
    let mut performed = Vec::new();
    for _ in 0..3 {
        ran.run(&manager, &mut performed).unwrap();
        for _ in 0..4 {
            stepped.step(&manager).unwrap();
        }
        stepped.context_mut().set_block_requests(Vec::new());
        assert_eq!(ran, stepped);
    }
    assert_eq!(*ran.shots(), Shot::Custom(1));
}

#[test]
fn running_stops_at_the_first_refused_pin() {
    let manager = pool();
    let mut task = Task::new(
        "t",
        TaskPriority::Low,
        Shot::Custom(3),
        vec![
            TaskStep::ReadGPIO(2),
            TaskStep::Yield(10),
            TaskStep::WriteGPIO(30, Level::High),
            TaskStep::ReadGPIO(2),
        ],
    )
    .assign(TaskResource::Pin(2))
    .assign(TaskResource::Pin(30));
    let mut performed = Vec::new();
    assert_eq!(
        task.run(&manager, &mut performed),
        Err(SchedulerError::Resource(ResourceError::NotFound(30)))
    );
    assert_eq!(
        performed,
        vec![StepOutcome::Command(PinCommand::Read(2)), StepOutcome::Pending(Request::Yield(10))]
    );
    assert_eq!(*task.context().program_counter(), 2);
    assert_eq!(*task.shots(), Shot::Custom(3));
}

#[test]
fn running_an_empty_program_only_wraps_around() {
    let manager = pool();
    let mut task = Task::new("idle", TaskPriority::Low, Shot::Custom(5), vec![]);
    let mut performed = Vec::new();
    assert_eq!(task.run(&manager, &mut performed), Ok(()));
    assert!(performed.is_empty());
    assert_eq!(*task.shots(), Shot::Custom(4));
    assert_eq!(task.run(&manager, &mut performed), Ok(()));
    assert_eq!(*task.shots(), Shot::Custom(3));
    assert_eq!(*task.context().program_counter(), 0);
}

#[test]
fn a_context_keeps_the_identifier_it_is_given() {
    let first = TaskContext::with_id(7, String::from("a"), TaskPriority::High);
    let second = TaskContext::with_id(8, String::from("a"), TaskPriority::High);
    assert_eq!(*first.id(), 7);
    assert_eq!(*second.id(), 8);
    assert_ne!(first, second);
    assert_eq!(first, TaskContext::with_id(7, String::from("a"), TaskPriority::High));
    for context in [&first, &second] {
        assert_eq!(context.name(), "a");
        assert_eq!(*context.priority(), TaskPriority::High);
        assert_eq!(*context.state(), TaskStatus::New);
        assert_eq!(*context.program_counter(), 0);
        assert!(context.pins_used().is_empty());
        assert!(context.block_requests().is_empty());
        assert_eq!(*context.last_run_timestamp(), 0);
        assert_eq!(*context.last_pin_read_level_register(), Level::Low);
    }
    assert_eq!(*TaskContext::with_id(u128::MAX, String::new(), TaskPriority::Low).id(), u128::MAX);
}
