use coop_scheduler::{
    Level, Request, Shot, Task, TaskContext, TaskPriority, TaskResource, TaskStatus, TaskStep,
};

#[test]
fn a_context_builder_starts_from_the_default() {
    let context = TaskContext::builder().build();
    assert_eq!(context.name(), "");
    assert_eq!(*context.priority(), TaskPriority::Low);
    assert_eq!(*context.state(), TaskStatus::New);
    assert_eq!(*context.program_counter(), 0);
    assert!(context.pins_used().is_empty());
    assert!(context.block_requests().is_empty());
    assert_eq!(*context.last_run_timestamp(), 0);
    assert_eq!(uuid::Uuid::from_u128(*context.id()).get_version_num(), 4);
}

#[test]
fn a_context_builder_sets_name_and_priority_in_any_order() {
    let one = TaskContext::builder().name("Blink Blue LED").priority(TaskPriority::High).build();
    let other = TaskContext::builder().priority(TaskPriority::High).name("Blink Blue LED").build();
    for context in [&one, &other] {
        assert_eq!(context.name(), "Blink Blue LED");
        assert_eq!(*context.priority(), TaskPriority::High);
        assert_eq!(*context.state(), TaskStatus::New);
    }
    let renamed = TaskContext::builder().name("a").name("b").build();
    assert_eq!(renamed.name(), "b");
}

#[test]
fn a_context_builder_keeps_its_identifier() {
    let builder = TaskContext::builder();
    let context = builder.name("x").priority(TaskPriority::Custom(1)).build();
    let again = TaskContext::builder().build();
    assert_ne!(context.id(), again.id());
}

#[test]
fn a_task_builder_starts_empty_and_unbounded() {
    let task = Task::builder().build();
    assert!(task.steps().is_empty());
    assert_eq!(*task.shots(), Shot::Infinity);
    assert_eq!(task.context().name(), "");
    assert_eq!(*task.context().priority(), TaskPriority::Low);
    assert_eq!(*task.context().state(), TaskStatus::New);
}

#[test]
fn a_task_builder_holds_what_it_is_given() {
    let context = TaskContext::builder().name("Blink Green LED").priority(TaskPriority::Low).build();
    let id = *context.id();
    let task = Task::builder()
        .shots(Shot::Custom(5))
        .context(context)
        .steps(vec![
            TaskStep::Yield(1000),
            TaskStep::WriteGPIO(4, Level::High),
            TaskStep::Yield(1000),
            TaskStep::WriteGPIO(4, Level::Low),
        ])
        .build()
        .assign(TaskResource::Pin(4));
    assert_eq!(*task.shots(), Shot::Custom(5));
    assert_eq!(task.steps().len(), 4);
    assert_eq!(task.steps()[1], TaskStep::WriteGPIO(4, Level::High));
    assert_eq!(task.context().name(), "Blink Green LED");
    assert_eq!(*task.context().id(), id);
    assert_eq!(task.context().pins_used(), &vec![4]);
}

#[test]
fn a_built_task_equals_a_task_made_in_one_call_but_for_its_identifier() {
    let steps = vec![TaskStep::ReadGPIO(1), TaskStep::Yield(3)];
    let built = Task::builder()
        .context(TaskContext::builder().name("t").priority(TaskPriority::Normal).build())
        .shots(Shot::Custom(2))
        .steps(steps.clone())
        .build();
    let mut made = Task::new("t", TaskPriority::Normal, Shot::Custom(2), steps);
    assert_ne!(built, made);
    made.context_mut().set_block_requests(vec![Request::Yield(1)]);
    made.set_context(built.context().clone());
    assert_eq!(built, made);
}
