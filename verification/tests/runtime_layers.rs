use slurm_docker::apptainer::{stub_id, Apptainer};
use slurm_docker::runtime::engine::Command;
use slurm_docker::runtime::host::{HostConfig as ResourceHostConfig, Resource, Resources as ResourceMap};
use slurm_docker::runtime::{
    AttachedProcess, CommandSpec, ContainerEngine, ContainerLaunch, ContainerStatus, Layer,
    LayerReference, ProcessExit, ResourceLimits, Resources,
};
use slurm_docker::slurm::FinishedAttachedProcess;
use slurm_docker::Error;
use std::path::PathBuf;
use std::sync::Arc;

const ABC_HASH: &str = "ba7816bf8f01cfea414140de5dae2223b00361a396177a9cb410ff61f20015ad";

#[test]
fn content_hash_of_a_root_layer_is_sha256_of_its_checksum() {
    let layer = Layer::local(PathBuf::from("/tmp/layer"), "abc".to_string());
    assert_eq!(layer.content_hash(), ABC_HASH);
}

#[test]
fn content_hash_chains_through_the_parent() {
    let parent = Layer::local(PathBuf::from("/tmp/base"), "abc".to_string());
    let child = Layer::new(
        Some(Arc::new(parent)),
        LayerReference::Local(PathBuf::from("/tmp/child")),
        "def".to_string(),
    );
    assert_eq!(
        child.content_hash(),
        "8d9ae3d56a95b886bb453febf5c515b8634d9b990ff4de14f42d120b5d00ce16"
    );
    assert_eq!(child.parent().unwrap().checksum(), "abc");
}

#[test]
fn layers_compare_by_checksum_and_parent_only() {
    let a = Layer::local(PathBuf::from("/one"), "sum".to_string());
    let b = Layer::new(
        None,
        LayerReference::Remote { store_url: "s3://x".to_string(), path: "p".to_string() },
        "sum".to_string(),
    );
    assert!(a == b);
    assert_eq!(a.content_hash(), b.content_hash());
    let c = Layer::new(Some(Arc::new(a.clone())), LayerReference::Local(PathBuf::from("/c")), "sum".to_string());
    assert!(c != b);
    let d = Layer::local(PathBuf::from("/one"), "other".to_string());
    assert!(a != d);
}

#[test]
fn remote_layers_have_an_object_store_path() {
    let remote = LayerReference::Remote {
        store_url: "s3://bucket".to_string(),
        path: "layers/abc".to_string(),
    };
    assert_eq!(
        remote.object_store_path(),
        Some(object_store::path::Path::from("layers/abc"))
    );
    assert_eq!(remote.object_store_path().unwrap().as_ref(), "layers/abc");
    assert_eq!(LayerReference::Local(PathBuf::from("/x")).object_store_path(), None);
}

#[test]
fn command_spec_starts_plain() {
    let spec = CommandSpec::new("ls".to_string());
    assert_eq!(spec.program, "ls");
    assert!(spec.args.is_empty());
    assert!(spec.env.is_empty());
    assert!(spec.working_dir.is_none());
    let command = Command::new("echo".to_string());
    assert_eq!(command.program, "echo");
    assert!(command.args.is_empty());
}

#[test]
fn defaults_are_empty() {
    assert_eq!(Resources::default(), Resources { cpus: 0, gpus: 0, memory_bytes: 0 });
    let limits = ResourceLimits::default();
    assert_eq!(limits.resources, Resources::default());
    assert!(limits.time_limit.is_none());
    assert!(ResourceMap::default().resources.is_empty());
    let resource = Resource::default();
    assert_eq!(resource.amount, 0);
    assert_eq!(resource.id.as_str(), "");
    let config = ResourceHostConfig {
        name: None,
        partition: Some("debug".to_string()),
        resources: ResourceMap::default(),
        time_limit: None,
    };
    assert_eq!(config.partition.as_deref(), Some("debug"));
}

#[test]
fn status_copies_are_equal() {
    let failed = ContainerStatus::Failed("boom".to_string());
    assert_eq!(failed.duplicate(), failed);
    let finished = ContainerStatus::Finished(ProcessExit { code: Some(3) });
    assert_eq!(finished.duplicate(), finished);
}

#[test]
fn apptainer_numbers_its_containers() {
    let engine = Apptainer::new();
    assert_eq!(engine.name(), "apptainer");
    let launch = |engine: &Apptainer| {
        engine
            .launch(ContainerLaunch {
                host_id: "h".to_string(),
                layer: Layer::local(PathBuf::from("/l"), "c".to_string()),
                command: None,
                limits: ResourceLimits::default(),
            })
            .unwrap()
    };
    let first = launch(&engine);
    let second = launch(&engine);
    assert_eq!(first.id, "apptainer-stub-0");
    assert_eq!(second.id, "apptainer-stub-1");
    assert_eq!(first.status, ContainerStatus::Finished(ProcessExit { code: Some(0) }));
    assert_eq!(first.base_layer.checksum(), "c");
    assert_eq!(stub_id(123), "apptainer-stub-123");
}

#[test]
fn apptainer_exec_attach_and_diff() {
    let engine = Apptainer::shared();
    let output = engine.exec("c1", CommandSpec::new("true".to_string())).unwrap();
    assert_eq!(output.exit, ProcessExit { code: Some(0) });
    assert!(output.stdout.is_empty() && output.stderr.is_empty());
    let mut process = engine.attach("c1").unwrap();
    assert_eq!(process.wait().unwrap(), ProcessExit { code: Some(0) });
    let layer = engine.diff("c1").unwrap().unwrap();
    assert!(layer.parent().is_none());
    assert_eq!(layer.checksum(), "stub-diff:c1");
    match layer.reference() {
        LayerReference::Remote { store_url, path } => {
            assert_eq!(store_url, "apptainer://stub");
            assert_eq!(path, "c1");
        }
        other => panic!("expected a remote layer, got {:?}", other),
    }
}

#[test]
fn finished_process_takes_no_input() {
    let mut process = FinishedAttachedProcess::success();
    assert_eq!(process.wait().unwrap(), ProcessExit { code: Some(0) });
    match process.send_stdin(b"hello") {
        Err(Error::Unsupported(message)) => {
            assert_eq!(message, "cannot send stdin to a completed process")
        }
        other => panic!("expected an unsupported error, got {:?}", other),
    }
    assert_eq!(process.wait().unwrap(), ProcessExit { code: Some(0) });
}

#[test]
fn content_hash_of_an_empty_checksum() {
    let layer = Layer::local(PathBuf::from("/x"), String::new());
    let hash = layer.content_hash();
    assert_eq!(hash, "e3b0c44298fc1c149afbf4c8996fb92427ae41e4649b934ca495991b7852b855");
    assert_eq!(hash.len(), 64);
}

#[test]
fn listing_hash_covers_paths_then_contents() {
    let entries = vec![
        ("a".to_string(), b"x".to_vec()),
        ("b".to_string(), b"yz".to_vec()),
    ];
    let expected = "b1e757a295fe20b07f73732d546d8ab870857db098d6e448b9d9893891ac55f5";
    assert_eq!(slurm_docker::runtime::listing_content_hash(&entries), expected);
    let layer = Layer::from_listing(
        None,
        LayerReference::Remote { store_url: "s3://b".to_string(), path: "l".to_string() },
        &entries,
    );
    assert_eq!(layer.checksum(), expected);
    assert_eq!(
        slurm_docker::runtime::listing_content_hash(&Vec::new()),
        "e3b0c44298fc1c149afbf4c8996fb92427ae41e4649b934ca495991b7852b855"
    );
}

#[test]
fn next_layer_takes_the_reported_one() {
    let current = Layer::local(PathBuf::from("/a"), "a".to_string());
    let reported = Layer::local(PathBuf::from("/b"), "b".to_string());
    assert_eq!(slurm_docker::runtime::next_layer(current.clone(), Some(reported)).checksum(), "b");
    assert_eq!(slurm_docker::runtime::next_layer(current, None).checksum(), "a");
}
