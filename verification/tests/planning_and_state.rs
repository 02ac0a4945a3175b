use slurm_docker::apptainer::Apptainer;
use slurm_docker::cli::{image_layer, run_command};
use slurm_docker::clock::{millis_of_reading, secs_of_reading};
use slurm_docker::runtime::LayerReference;
use slurm_docker::slurm::host_info;
use slurm_docker::cli::{build_summary, cluster_summary, host_line, launch_run, RunArgs};
use slurm_docker::dockerfile::{Dockerfile, Healthcheck, Instruction, ShellOrExec};
use slurm_docker::runtime::{
    ContainerEngine, Host, HostConfig, Layer, ResourceLimits, Resources, Scheduler,
};
use slurm_docker::slurm::{
    command_for_instruction, command_spec, host_id, noop_command, shell_command, unix_millis,
    RawSlurmInfo, SlurmCluster, SlurmScheduler,
};
use slurm_docker::state::{now_unix_secs, CliState, HostRecord, SchedulerKind, StateStore};
use slurm_docker::text::decimal_string;
use std::path::{Path, PathBuf};
use std::sync::Arc;
use std::time::Duration;

fn args_of(spec: &slurm_docker::runtime::CommandSpec) -> Vec<&str> {
    spec.args.iter().map(String::as_str).collect()
}

#[test]
fn shell_form_runs_through_sh() {
    let spec = shell_command("echo hi".to_string());
    assert_eq!(spec.program, "/bin/sh");
    assert_eq!(args_of(&spec), vec!["-lc", "echo hi"]);
    let noop = noop_command();
    assert_eq!(noop.program, "/bin/sh");
    assert_eq!(args_of(&noop), vec!["-lc", "true"]);
}

#[test]
fn exec_form_runs_its_first_word() {
    let spec = command_spec(&ShellOrExec::Exec(vec!["/bin/app".to_string(), "-v".to_string()]));
    assert_eq!(spec.program, "/bin/app");
    assert_eq!(args_of(&spec), vec!["-v"]);
    let empty = command_spec(&ShellOrExec::Exec(Vec::new()));
    assert_eq!(empty.program, "true");
    assert!(empty.args.is_empty());
}

#[test]
fn commands_for_instructions() {
    let run = command_for_instruction(&Instruction::parse("RUN make all").unwrap()).unwrap().unwrap();
    assert_eq!(args_of(&run), vec!["-lc", "make all"]);
    let health = Instruction::Healthcheck(Healthcheck::Command {
        options: Vec::new(),
        command: ShellOrExec::Exec(vec!["check".to_string()]),
    });
    assert_eq!(command_for_instruction(&health).unwrap().unwrap().program, "check");
    let env = command_for_instruction(&Instruction::parse("ENV A=1").unwrap()).unwrap().unwrap();
    assert_eq!(args_of(&env), vec!["-lc", "true"]);
}

#[test]
fn a_stage_runs_the_programs_of_its_instructions() {
    let dockerfile = Dockerfile::parse("FROM a AS one\nRUN make\nCMD [\"/app\"]\nENV X=1\nFROM b\nUSER me").unwrap();
    let stage = command_for_instruction(&dockerfile.instructions()[0]).unwrap().unwrap();
    assert_eq!(stage.program, "/bin/sh");
    assert_eq!(args_of(&stage), vec!["-lc", "/bin/sh && /app && /bin/sh"]);
    let Instruction::Stage { from, .. } = &dockerfile.instructions()[1] else {
        panic!("expected a stage");
    };
    assert_eq!(from.image, "b");
    let empty = Dockerfile::new(Vec::new());
    let stage = Instruction::Stage { from: from.clone(), dockerfile: Arc::new(empty) };
    let command = command_for_instruction(&stage).unwrap().unwrap();
    assert_eq!(args_of(&command), vec!["-lc", "true"]);
}

#[test]
fn host_ids_come_from_the_name_or_the_clock() {
    assert_eq!(host_id(&Some("mine".to_string()), 5), "mine");
    assert_eq!(host_id(&None, 1700000000123), "slurm-host-1700000000123");
    assert_eq!(host_id(&None, 0), "slurm-host-0");
    assert!(unix_millis() > 1_600_000_000_000);
    assert!(now_unix_secs() > 1_600_000_000);
    assert_eq!(decimal_string(u128::MAX), u128::MAX.to_string());
}

#[test]
fn scheduler_records_the_hosts_it_creates() {
    let scheduler = SlurmScheduler::new("sched".to_string(), Apptainer::shared());
    assert_eq!(scheduler.id(), "sched");
    assert!(scheduler.hosts().unwrap().is_empty());
    let resources = Resources { cpus: 2, gpus: 1, memory_bytes: 1024 };
    let host = scheduler
        .create_slurm_host(HostConfig {
            name: Some("h1".to_string()),
            partition: Some("gpu".to_string()),
            resources,
            time_limit: Some(Duration::from_secs(60)),
        })
        .unwrap();
    assert_eq!(host.id(), "h1");
    assert_eq!(host.partition(), Some("gpu"));
    assert_eq!(*host.resources(), resources);
    assert_eq!(host.time_limit(), Some(Duration::from_secs(60)));
    let unnamed = scheduler
        .create_host(HostConfig { name: None, partition: None, resources, time_limit: None })
        .unwrap();
    assert!(unnamed.id().starts_with("slurm-host-"));
    let hosts = scheduler.hosts().unwrap();
    assert_eq!(hosts.len(), 2);
    assert_eq!(hosts[0].id, "h1");
    assert_eq!(hosts[0].name.as_deref(), Some("h1"));
    assert_eq!(hosts[1].name, None);
}

#[test]
fn hosts_launch_containers_through_the_engine() {
    let engine: Arc<dyn ContainerEngine> = Apptainer::shared();
    let scheduler = SlurmScheduler::new("s".to_string(), engine);
    let host = scheduler
        .create_host(HostConfig {
            name: Some("h".to_string()),
            partition: None,
            resources: Resources::default(),
            time_limit: None,
        })
        .unwrap();
    let layer = Layer::local(PathBuf::from("/base"), "base".to_string());
    let container = host.launch_container(layer, ResourceLimits::default()).unwrap();
    assert_eq!(container.id(), "apptainer-stub-0");
    assert_eq!(container.host_id(), "h");
    assert_eq!(container.base_layer().checksum(), "base");
    let next = container.final_layer().unwrap().unwrap();
    assert_eq!(next.checksum(), "stub-diff:apptainer-stub-0");

    let dockerfile = Dockerfile::parse("RUN a\nRUN b").unwrap();
    let containers = host
        .launch_dockerfile(&dockerfile, Layer::local(PathBuf::from("/b"), "b".to_string()), ResourceLimits::default())
        .unwrap();
    assert_eq!(containers.len(), 2);
    assert_eq!(containers[1].base_layer().checksum(), "stub-diff:apptainer-stub-1");
}

fn record(id: &str, cpus: u32) -> HostRecord {
    HostRecord {
        id: id.to_string(),
        scheduler_id: "local-slurm".to_string(),
        slurm_job_id: None,
        resources: Resources { cpus, gpus: 0, memory_bytes: 0 },
        time_limit: None,
        created_at_unix_secs: 1,
    }
}

#[test]
fn adding_a_host_replaces_one_with_the_same_id() {
    let mut state = CliState::default();
    assert_eq!(state.schedulers.len(), 1);
    assert_eq!(state.schedulers[0].id, "local-slurm");
    assert_eq!(state.schedulers[0].kind, SchedulerKind::Slurm);
    assert_eq!(state.schedulers[0].config, serde_json::Value::Object(serde_json::Map::new()));
    assert!(state.hosts.is_empty());
    state.add_host(record("a", 1));
    state.add_host(record("b", 2));
    state.add_host(record("a", 3));
    let ids: Vec<&str> = state.hosts.iter().map(|h| h.id.as_str()).collect();
    assert_eq!(ids, vec!["b", "a"]);
    assert_eq!(state.hosts[1].resources.cpus, 3);
}

#[test]
fn state_store_keeps_its_path() {
    let store = StateStore::new(PathBuf::from("/tmp/state.json"));
    assert_eq!(store.path(), Path::new("/tmp/state.json"));
}

#[test]
fn run_launches_a_host_and_container() {
    let outcome = launch_run(RunArgs {
        cpus: 4,
        gpus: 0,
        memory_bytes: 10,
        time_limit_secs: Some(30),
        partition: Some("debug".to_string()),
        image: "ubuntu".to_string(),
        command: vec!["echo".to_string(), "hi".to_string()],
    })
    .unwrap();
    assert!(outcome.host.id.starts_with("slurm-host-"));
    assert_eq!(outcome.host.scheduler_id, "local-slurm");
    assert_eq!(outcome.host.slurm_job_id, None);
    assert_eq!(outcome.host.resources, Resources { cpus: 4, gpus: 0, memory_bytes: 10 });
    assert_eq!(outcome.host.time_limit, Some(Duration::from_secs(30)));
    assert_eq!(outcome.container_id, "apptainer-stub-0");
}

#[test]
fn printed_lines() {
    assert_eq!(host_line(&record("h", 2)), "h\tlocal-slurm\t2 cpu(s)\t0 gpu(s)\t0 bytes");
    assert_eq!(
        build_summary(3, "Dockerfile", "."),
        "parsed 3 root instruction(s) from Dockerfile using context ."
    );
    let cluster = SlurmCluster::parse(&RawSlurmInfo {
        nodes: "NodeName=a State=IDLE\n\nNodeName=b State=IDLE".to_string(),
        partitions: String::new(),
        jobs: "JobId=1 JobName=x JobState=RUNNING".to_string(),
    })
    .unwrap();
    assert_eq!(cluster_summary(&cluster), "2 node(s), 0 partition(s), 1 job(s)");
}

#[test]
fn run_builds_its_layer_and_command() {
    let layer = image_layer("ubuntu".to_string());
    assert!(layer.parent().is_none());
    assert_eq!(layer.checksum(), "ubuntu");
    match layer.reference() {
        LayerReference::Remote { store_url, path } => {
            assert_eq!(store_url, "image");
            assert_eq!(path, "ubuntu");
        }
        other => panic!("expected a remote layer, got {:?}", other),
    }
    assert!(run_command(&Vec::new()).is_none());
    let command = run_command(&vec!["echo".to_string(), "a".to_string(), "b".to_string()]).unwrap();
    assert_eq!(command.program, "echo");
    assert_eq!(args_of(&command), vec!["a", "b"]);
}

#[test]
fn registry_records_and_clock_readings() {
    let config = HostConfig {
        name: Some("n".to_string()),
        partition: None,
        resources: Resources { cpus: 1, gpus: 2, memory_bytes: 3 },
        time_limit: Some(Duration::from_secs(9)),
    };
    let info = host_info(&"id".to_string(), &config);
    assert_eq!(info.id, "id");
    assert_eq!(info.name.as_deref(), Some("n"));
    assert_eq!(info.resources, config.resources);
    assert_eq!(info.time_limit, Some(Duration::from_secs(9)));
    assert_eq!(secs_of_reading(None), 0);
    assert_eq!(secs_of_reading(Some(Duration::from_millis(2500))), 2);
    assert_eq!(millis_of_reading(Some(Duration::from_millis(2500))), 2500);
    assert_eq!(millis_of_reading(None), 0);
}

#[test]
fn instruction_requests_carry_the_instruction_command() {
    let scheduler = SlurmScheduler::new("s".to_string(), Apptainer::shared());
    let host = scheduler
        .create_slurm_host(HostConfig {
            name: Some("h".to_string()),
            partition: None,
            resources: Resources::default(),
            time_limit: None,
        })
        .unwrap();
    let request = host.instruction_request(
        &Instruction::parse("RUN make").unwrap(),
        Layer::local(PathBuf::from("/l"), "l".to_string()),
        ResourceLimits::default(),
    );
    assert_eq!(request.host_id, "h");
    assert_eq!(request.layer.checksum(), "l");
    let command = request.command.unwrap();
    assert_eq!(args_of(&command), vec!["-lc", "make"]);
}
