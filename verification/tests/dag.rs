use task_maker_exec::check_dag::{check_dag, DagError};
use task_maker_exec::dag::{
    Execution, ExecutionCommand, ExecutionDAGData, ExecutionDAGWatchSet, FileKey, ProvidedFile,
};

fn system(uuid: u128, name: &str) -> Execution {
    Execution::new(uuid, name.to_string(), ExecutionCommand::System(name.to_string()))
}

fn nothing_watched() -> ExecutionDAGWatchSet {
    ExecutionDAGWatchSet { executions: vec![], files: vec![] }
}

#[test]
fn empty_graph_is_valid() {
    let dag = ExecutionDAGData::new();
    assert_eq!(check_dag(&dag, &nothing_watched()), Ok(()));
}

#[test]
fn missing_dependency_is_reported() {
    let mut dag = ExecutionDAGData::new();
    let mut e1 = system(1, "true");
    e1.stdin = Some(100);
    dag.add_execution(e1);
    assert_eq!(
        check_dag(&dag, &nothing_watched()),
        Err(DagError::MissingDependency { execution: 1, file: 100 })
    );
}

#[test]
fn cycle_is_reported() {
    let mut dag = ExecutionDAGData::new();
    let mut e1 = system(1, "true");
    let mut e2 = system(2, "true");
    e1.stdout = Some(11);
    e2.stdout = Some(12);
    e1.stdin = Some(12);
    e2.stdin = Some(11);
    dag.add_execution(e1);
    dag.add_execution(e2);
    assert_eq!(check_dag(&dag, &nothing_watched()), Err(DagError::DependencyCycle));
}

#[test]
fn duplicate_producer_is_reported() {
    let mut dag = ExecutionDAGData::new();
    let mut e1 = system(1, "true");
    let mut e2 = system(2, "true");
    e1.stdout = Some(11);
    e2.stdout = Some(11);
    dag.add_execution(e1);
    dag.add_execution(e2);
    assert_eq!(
        check_dag(&dag, &nothing_watched()),
        Err(DagError::DuplicateProducer { file: 11 })
    );
}

#[test]
fn unknown_callback_target_is_reported() {
    let mut dag = ExecutionDAGData::new();
    dag.add_execution(system(1, "true"));
    assert!(dag.provide_file(ProvidedFile::Content {
        file: 5,
        key: FileKey { hi: 0, lo: 0 },
        content: vec![],
    }));
    let watch = ExecutionDAGWatchSet { executions: vec![1, 7], files: vec![5] };
    assert_eq!(check_dag(&dag, &watch), Err(DagError::UnknownCallbackTarget { uuid: 7 }));
    let watch = ExecutionDAGWatchSet { executions: vec![1], files: vec![5, 9] };
    assert_eq!(check_dag(&dag, &watch), Err(DagError::UnknownCallbackTarget { uuid: 9 }));
    let watch = ExecutionDAGWatchSet { executions: vec![1], files: vec![5] };
    assert_eq!(check_dag(&dag, &watch), Ok(()));
}
