use run::config::{choose_config, output_dir_choice};
use run::executor::{Batch, DependencyRun, RunStep};
use run::interpreter::shell::{python_for, shell_args_for};
use run::interpreter::Interpreter;
use run::transpiler::Interpreter as Lang;
use run::utils::HostPlatform;

#[test]
fn python_is_python3_when_found() {
    assert_eq!(python_for(true), "python3");
    assert_eq!(python_for(false), "python");
}

#[test]
fn default_interpreter_by_platform_and_bash() {
    assert_eq!(Lang::default_interpreter(HostPlatform::Windows, true), Lang::Pwsh);
    assert_eq!(Lang::default_interpreter(HostPlatform::Windows, false), Lang::Pwsh);
    assert_eq!(Lang::default_interpreter(HostPlatform::Linux, true), Lang::Bash);
    assert_eq!(Lang::default_interpreter(HostPlatform::MacOS, false), Lang::Sh);
}

#[test]
fn interpreter_for_host_uses_the_given_answer() {
    let i = Interpreter::for_host(HostPlatform::Linux, false);
    assert!(i.list_available_functions().is_empty());
    let _ = Interpreter::for_host(HostPlatform::Windows, true);
}

#[test]
fn shell_args_follow_the_search_answer() {
    assert_eq!(shell_args_for(&Lang::Python, true), ("python3".to_string(), "-c", "python"));
    assert_eq!(shell_args_for(&Lang::Python, false), ("python".to_string(), "-c", "python"));
    assert_eq!(shell_args_for(&Lang::Node, true), ("node".to_string(), "-e", "node"));
    assert_eq!(shell_args_for(&Lang::Pwsh, false), ("pwsh".to_string(), "-Command", "pwsh"));
}

#[test]
fn given_runfile_is_used_alone() {
    let (c, m) = choose_config(Some(Some("a() echo a".to_string())), Some("g() x".to_string()), None).unwrap();
    assert_eq!(c, "a() echo a");
    assert!(!m.has_global && m.has_project);
    assert!(choose_config(Some(None), Some("g() x".to_string()), None).is_none());
}

#[test]
fn global_and_project_are_merged_global_first() {
    let (c, m) = choose_config(None, Some("g() x".to_string()), Some("p() y".to_string())).unwrap();
    assert_eq!(c, "g() x\np() y");
    assert!(m.has_global && m.has_project);
    assert!(choose_config(None, None, None).is_none());
}

#[test]
fn output_dir_prefers_environment_then_runfile_then_temp() {
    assert_eq!(output_dir_choice(Some("/env".to_string()), Some("/proj".to_string()), "/tmp".to_string()), ("/env".to_string(), true));
    assert_eq!(output_dir_choice(None, Some("/proj".to_string()), "/tmp".to_string()), ("/proj".to_string(), true));
    assert_eq!(output_dir_choice(None, None, "/tmp".to_string()), ("/tmp".to_string(), true));
    assert_eq!(output_dir_choice(Some("/p/.run-output".to_string()), None, "/tmp".to_string()), ("/p/.run-output".to_string(), false));
}

#[test]
fn dependency_run_stops_at_the_first_failure() {
    let batches = vec![
        Batch::Single("a".to_string()),
        Batch::Parallel { tasks: vec!["b".to_string(), "c".to_string()], workers: 2 },
        Batch::Single("d".to_string()),
    ];
    let mut run = DependencyRun::new(batches);
    match run.next_step() {
        RunStep::Run(Batch::Single(t)) => assert_eq!(t, "a"),
        _ => panic!("expected a"),
    }
    run.batch_done(Ok(()));
    match run.next_step() {
        RunStep::Run(Batch::Parallel { tasks, workers }) => {
            assert_eq!(tasks, vec!["b", "c"]);
            assert_eq!(workers, 2);
        }
        _ => panic!("expected the parallel stage"),
    }
    run.batch_done(Err("c failed".to_string()));
    match run.next_step() {
        RunStep::Finished(Err(e)) => assert_eq!(e, "c failed"),
        _ => panic!("expected the first error"),
    }
}

#[test]
fn dependency_run_finishes_when_all_succeed() {
    let mut run = DependencyRun::new(vec![Batch::Single("a".to_string())]);
    assert!(matches!(run.next_step(), RunStep::Run(_)));
    run.batch_done(Ok(()));
    assert!(matches!(run.next_step(), RunStep::Finished(Ok(()))));
    assert!(matches!(DependencyRun::new(Vec::new()).next_step(), RunStep::Finished(Ok(()))));
}
