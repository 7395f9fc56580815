use task_maker_exec::client::{
    fire, process_provided_file, take_prefix, ClientAction, Event, ExecutionCallbacks,
    ExecutorClient, FileCallbacks, WriteToCallback, STATUS_POLL_INTERVAL_MS,
};
use task_maker_exec::dag::{ExecutionDAGData, FileKey, ProvidedFile};
use task_maker_exec::executor::Flow;
use task_maker_exec::proto::{
    ExecutorClientMessage, ExecutorServerMessage, FileOutcome, Received,
};
use task_maker_exec::store::FileStore;

fn wanted(file: u128, allow_failure: bool, executable: bool, limit: Option<usize>) -> FileCallbacks {
    FileCallbacks {
        file,
        write_to: Some(WriteToCallback { dest: format!("/out/{}", file), executable, allow_failure }),
        get_content: limit,
    }
}

#[test]
fn a_file_is_written_on_success_or_where_failure_is_allowed() {
    for (success, allow_failure, written) in
        [(true, false, true), (true, true, true), (false, true, true), (false, false, false)]
    {
        let mut callbacks = vec![wanted(1, allow_failure, true, None)];
        let plan = process_provided_file(&mut callbacks, 1, success, &vec![b"x".to_vec()]).unwrap();
        assert_eq!(plan.write_to.is_some(), written);
        assert_eq!(plan.make_executable, written);
        if written {
            assert_eq!(plan.write_to.unwrap(), "/out/1");
        }
        assert_eq!(plan.content, None);
    }
}

#[test]
fn the_handler_gets_the_first_bytes_once() {
    let mut callbacks = vec![wanted(1, false, false, Some(4)), wanted(2, false, false, Some(100))];
    let chunks = vec![b"ab".to_vec(), b"cde".to_vec(), b"f".to_vec()];
    let plan = process_provided_file(&mut callbacks, 1, true, &chunks).unwrap();
    assert_eq!(plan.content, Some(b"abcd".to_vec()));
    assert!(!plan.make_executable);
    assert_eq!(callbacks[0].get_content, None);
    assert_eq!(callbacks[1].get_content, Some(100));
    let again = process_provided_file(&mut callbacks, 1, true, &chunks).unwrap();
    assert_eq!(again.content, None);
    assert_eq!(again.write_to, Some("/out/1".to_string()));
    let whole = process_provided_file(&mut callbacks, 2, false, &chunks).unwrap();
    assert_eq!(whole.content, Some(b"abcdef".to_vec()));
    assert_eq!(whole.write_to, None);
    assert!(process_provided_file(&mut callbacks, 3, true, &chunks).is_none());
}

#[test]
fn prefixes() {
    assert_eq!(take_prefix(&vec![1, 2, 3], 0), Vec::<u8>::new());
    assert_eq!(take_prefix(&vec![1, 2, 3], 2), vec![1, 2]);
    assert_eq!(take_prefix(&vec![1, 2, 3], 3), vec![1, 2, 3]);
    assert_eq!(take_prefix(&vec![1, 2, 3], 9), vec![1, 2, 3]);
    assert_eq!(STATUS_POLL_INTERVAL_MS, 1000);
}

#[test]
fn handlers_are_called_once() {
    let mut callbacks = vec![
        ExecutionCallbacks { execution: 1, on_start: 2, on_done: 1, on_skip: 3 },
        ExecutionCallbacks { execution: 2, on_start: 1, on_done: 0, on_skip: 0 },
    ];
    assert_eq!(fire(&mut callbacks, 1, Event::Start), 2);
    assert_eq!(fire(&mut callbacks, 1, Event::Start), 0);
    assert_eq!(fire(&mut callbacks, 1, Event::Skip), 3);
    assert_eq!(fire(&mut callbacks, 1, Event::Skip), 0);
    assert_eq!(fire(&mut callbacks, 1, Event::Done), 1);
    assert_eq!(fire(&mut callbacks, 2, Event::Done), 0);
    assert_eq!(fire(&mut callbacks, 3, Event::Done), 0);
    assert_eq!(callbacks[1].on_start, 1);
}

#[test]
fn the_end_asks_for_what_is_not_held() {
    let dag = ExecutionDAGData::new();
    let mut store = FileStore::new();
    let held = store.insert(b"held content".to_vec());
    let other = task_maker_exec::store::key_of(&b"elsewhere".to_vec());
    let mut client = ExecutorClient::new(
        &dag,
        vec![],
        vec![wanted(1, false, false, Some(4)), wanted(2, true, false, None)],
    );
    let outcomes = vec![
        FileOutcome { file: 1, key: held, success: true },
        FileOutcome { file: 2, key: other, success: false },
        FileOutcome { file: 3, key: held, success: true },
    ];
    let step = client.evaluate(
        Received::Message(ExecutorServerMessage::Done(outcomes)),
        &vec![],
        &store,
    );
    assert_eq!(step.flow, Flow::GoOn);
    assert_eq!(client.missing_files, Some(1));
    assert_eq!(step.actions.len(), 2);
    match &step.actions[0] {
        ClientAction::Deliver { file, key, plan } => {
            assert_eq!(*file, 1);
            assert_eq!(*key, Some(held));
            assert_eq!(plan.write_to, Some("/out/1".to_string()));
            assert_eq!(plan.content, Some(b"held".to_vec()));
        }
        other => panic!("unexpected {:?}", other),
    }
    match &step.actions[1] {
        ClientAction::Send(ExecutorClientMessage::AskFile(file, key, success)) => {
            assert_eq!((*file, *key, *success), (2, other, false));
        }
        other => panic!("unexpected {:?}", other),
    }
    // The file comes, and nothing is missing any more.
    let step = client.evaluate(
        Received::Message(ExecutorServerMessage::ProvideFile(2, false)),
        &vec![b"else".to_vec(), b"where".to_vec()],
        &store,
    );
    assert_eq!(step.flow, Flow::Stop);
    assert_eq!(client.missing_files, Some(0));
    match &step.actions[0] {
        ClientAction::Deliver { file, key, plan } => {
            assert_eq!(*file, 2);
            assert_eq!(*key, None);
            assert_eq!(plan.write_to, Some("/out/2".to_string()));
        }
        other => panic!("unexpected {:?}", other),
    }
}

#[test]
fn an_error_ends_the_loop() {
    let dag = ExecutionDAGData::new();
    let store = FileStore::new();
    let mut client = ExecutorClient::new(&dag, vec![], vec![]);
    let step = client.evaluate(
        Received::Message(ExecutorServerMessage::Error("bad".to_string())),
        &vec![],
        &store,
    );
    assert_eq!(step.flow, Flow::Stop);
    assert!(matches!(&step.actions[0], ClientAction::Failed(m) if m == "bad"));
    let step = client.evaluate(Received::Closed, &vec![], &store);
    assert_eq!(step.flow, Flow::Stop);
    assert!(step.actions.is_empty());
    let step = client.evaluate(
        Received::Message(ExecutorServerMessage::Done(vec![])),
        &vec![],
        &store,
    );
    assert_eq!(step.flow, Flow::Stop);
    assert_eq!(client.missing_files, Some(0));
    let step = client.evaluate(Received::Message(ExecutorServerMessage::AskFile(9)), &vec![], &store);
    assert_eq!(step.flow, Flow::GoOn);
    assert!(step.actions.is_empty());
}

#[test]
fn the_start_delivers_the_supplied_files_and_then_sends_the_graph() {
    let key = FileKey { hi: 0, lo: 7 };
    let mut dag = ExecutionDAGData::new();
    assert!(dag.provide_file(ProvidedFile::Content { file: 1, key, content: b"inline".to_vec() }));
    assert!(dag.provide_file(ProvidedFile::LocalFile {
        file: 2,
        key,
        local_path: "/somewhere".to_string(),
    }));
    assert!(dag.provide_file(ProvidedFile::Content { file: 3, key, content: b"unwatched".to_vec() }));
    let watched = ExecutionCallbacks { execution: 40, on_start: 1, on_done: 1, on_skip: 0 };
    let mut client = ExecutorClient::new(
        &dag,
        vec![watched],
        vec![wanted(2, false, true, Some(3)), wanted(1, false, false, Some(2)), wanted(9, false, false, None)],
    );

    // Without one content for each supplied file nothing is done.
    assert!(client.start(ExecutionDAGData::new(), &vec![vec![]]).is_none());
    assert_eq!(client.file_callbacks[0].get_content, Some(3));

    let read = vec![b"ignored".to_vec(), b"on disk".to_vec(), vec![]];
    let step = client.start(dag, &read).unwrap();
    assert_eq!(step.flow, Flow::GoOn);
    assert_eq!(step.actions.len(), 3);
    match &step.actions[0] {
        ClientAction::Deliver { file, key, plan } => {
            assert_eq!((*file, *key), (1, None));
            assert_eq!(plan.content, Some(b"in".to_vec()));
            assert_eq!(plan.write_to, Some("/out/1".to_string()));
            assert!(!plan.make_executable);
        }
        other => panic!("unexpected {:?}", other),
    }
    match &step.actions[1] {
        ClientAction::Deliver { file, key, plan } => {
            assert_eq!((*file, *key), (2, None));
            assert_eq!(plan.content, Some(b"on ".to_vec()));
            assert_eq!(plan.write_to, Some("/out/2".to_string()));
            assert!(plan.make_executable);
        }
        other => panic!("unexpected {:?}", other),
    }
    match &step.actions[2] {
        ClientAction::Send(ExecutorClientMessage::Evaluate { dag, callbacks }) => {
            assert_eq!(dag.provided_files().len(), 3);
            assert_eq!(callbacks.executions, vec![40]);
            assert_eq!(callbacks.files, vec![2, 1, 9]);
        }
        other => panic!("unexpected {:?}", other),
    }
    // The handlers that got the content wait no more; the others do.
    assert_eq!(client.file_callbacks[0].get_content, None);
    assert_eq!(client.file_callbacks[1].get_content, None);
    assert_eq!(client.execution_callbacks, vec![watched]);
    assert_eq!(client.missing_files, None);
}

#[test]
fn a_listed_file_with_another_content_is_refused() {
    let dag = ExecutionDAGData::new();
    let store = FileStore::new();
    let listed = task_maker_exec::store::key_of(&b"expected".to_vec());
    let mut client =
        ExecutorClient::new(&dag, vec![], vec![wanted(1, true, false, Some(100)), wanted(2, true, false, None)]);
    assert!(client.announced.is_empty());
    let outcomes = vec![
        FileOutcome { file: 1, key: listed, success: true },
        FileOutcome { file: 2, key: listed, success: true },
    ];
    let step = client.evaluate(
        Received::Message(ExecutorServerMessage::Done(outcomes.clone())),
        &vec![],
        &store,
    );
    assert_eq!(step.flow, Flow::GoOn);
    assert_eq!(client.missing_files, Some(2));
    assert_eq!(client.announced, outcomes);

    // The right content is handed on.
    let step = client.evaluate(
        Received::Message(ExecutorServerMessage::ProvideFile(1, true)),
        &vec![b"expe".to_vec(), b"cted".to_vec()],
        &store,
    );
    assert_eq!(step.flow, Flow::GoOn);
    assert_eq!(client.missing_files, Some(1));
    match &step.actions[0] {
        ClientAction::Deliver { file, plan, .. } => {
            assert_eq!(*file, 1);
            assert_eq!(plan.content, Some(b"expected".to_vec()));
        }
        other => panic!("unexpected {:?}", other),
    }

    // Another content is not: the evaluation has failed.
    let step = client.evaluate(
        Received::Message(ExecutorServerMessage::ProvideFile(2, true)),
        &vec![b"something else".to_vec()],
        &store,
    );
    assert_eq!(step.flow, Flow::Stop);
    assert_eq!(step.actions.len(), 1);
    assert!(matches!(
        &step.actions[0],
        ClientAction::Failed(m) if m == "the content of a file does not have the announced key"
    ));
    assert_eq!(client.missing_files, Some(1));
    assert_eq!(client.file_callbacks[1].write_to.as_ref().unwrap().dest, "/out/2");
}
