use slurm_docker::slurm::parser::{
    parse_record, SlurmDeserializer, SlurmDocument, SlurmRecord, SlurmValue,
};
use slurm_docker::slurm::{
    job_count, parse_jobs, parse_nodes, parse_partitions, JobState, NodeState, PartitionState,
    RawSlurmInfo, SlurmCluster,
};
use slurm_docker::strmap::StrMap;
use slurm_docker::Error;

fn single(record: &SlurmRecord, key: &str) -> Option<String> {
    match record.get(key) {
        Some(SlurmValue::Single(s)) => Some(s.clone()),
        _ => None,
    }
}

#[test]
fn parses_slurm_nodes() {
    let input = "NodeName=node1 State=IDLE CPUAlloc=0 CPUTot=64 RealMemory=128000 Partitions=debug CfgTRES=cpu=64,mem=128000M AllocTRES=\n\nNodeName=node2 State=ALLOCATED CPUAlloc=4 CPUTot=64 RealMemory=128000 Partitions=debug";
    let nodes = parse_nodes(input).unwrap();
    assert_eq!(nodes.len(), 2);
    assert_eq!(nodes[0].name, "node1");
    assert_eq!(
        nodes[0].configured_tres.get("cpu").map(String::as_str),
        Some("64")
    );
}

#[test]
fn parses_slurm_jobs() {
    let input = "JobId=42 JobName=build JobState=RUNNING NumCPUs=2 NumNodes=1 NodeList=node1 ReqTRES=cpu=2,mem=8G AllocTRES=cpu=2";
    let jobs = parse_jobs(input).unwrap();
    assert_eq!(jobs[0].job_id, 42);
    assert_eq!(jobs[0].state, JobState::Running);
}

#[test]
fn parses_node_record() {
    let input = "NodeName=node4504 Arch=x86_64 CoresPerSocket=32
CPUAlloc=0 CPUEfctv=64 CPUTot=64 CPULoad=0.04
OS=Linux 4.18.0 #1 SMP Tue May 10 14:48:47 UTC 2022
AllocTRES=
State=IDLE";
    let node = SlurmDeserializer::from_str(input).deserialize_map().unwrap();
    assert_eq!(single(&node, "NodeName").as_deref(), Some("node4504"));
    assert_eq!(single(&node, "CoresPerSocket").unwrap().parse::<u32>().unwrap(), 32);
    assert_eq!(single(&node, "CPULoad").unwrap().parse::<f32>().unwrap(), 0.04);
    assert_eq!(single(&node, "AllocTRES"), None);
    assert_eq!(single(&node, "State").as_deref(), Some("IDLE"));
}

#[test]
fn parses_multi_records() {
    let nodes = SlurmDeserializer::from_str("NodeName=node1 State=IDLE\n\nNodeName=node2 State=ALLOCATED")
        .deserialize_seq();
    assert_eq!(nodes.len(), 2);
    assert_eq!(single(&nodes[1], "NodeName").as_deref(), Some("node2"));
}

#[test]
fn record_keeps_values_with_spaces_and_repeats() {
    let record = parse_record("NodeName=n1 OS=Linux 4.18.0 #1 SMP Gres=gpu:2 Gres=gpu:4");
    assert_eq!(single(&record, "OS").as_deref(), Some("Linux 4.18.0 #1 SMP"));
    match record.get("Gres") {
        Some(SlurmValue::Repeated(v)) => {
            assert_eq!(v, &vec!["gpu:2".to_string(), "gpu:4".to_string()]);
        }
        other => panic!("expected repeated values, got {:?}", other),
    }
    assert!(record.get("Missing").is_none());
}

#[test]
fn first_record_of_empty_input_is_an_error() {
    let err = SlurmDeserializer::from_str("").deserialize_map().unwrap_err();
    assert_eq!(err.message(), "no record found");
}

#[test]
fn blank_input_gives_no_records() {
    assert!(parse_nodes("   \n\n  ").unwrap().is_empty());
    assert!(parse_jobs("").unwrap().is_empty());
    assert!(parse_partitions("\n").unwrap().is_empty());
}

#[test]
fn node_fields_and_states() {
    let input = "NodeName=n1 State=MIX CPUTot=8 Partitions=debug,gpu Gres=gpu:1\n\nNodeName=n2 State=WEIRD\n\nNodeName=n3 State=DRAIN\n\nNodeName=n4 State=DOWN";
    let nodes = parse_nodes(input).unwrap();
    assert_eq!(nodes.len(), 4);
    assert_eq!(nodes[0].state, NodeState::Mixed);
    assert_eq!(nodes[0].cpus, Some(8));
    assert_eq!(nodes[0].cpu_alloc, None);
    assert_eq!(nodes[0].partitions, vec!["debug".to_string(), "gpu".to_string()]);
    assert_eq!(nodes[0].gres.as_deref(), Some("gpu:1"));
    assert_eq!(nodes[1].state, NodeState::Unknown);
    assert_eq!(nodes[2].state, NodeState::Drain);
    assert_eq!(nodes[3].state, NodeState::Down);
    assert!(nodes[1].partitions.is_empty());
    assert_eq!(nodes[1].configured_tres.len(), 0);
}

#[test]
fn node_without_a_name_is_an_error() {
    match parse_nodes("State=IDLE CPUTot=4") {
        Err(Error::SlurmParse(message)) => assert!(message.contains("NodeName")),
        other => panic!("expected a slurm parse error, got {:?}", other),
    }
}

#[test]
fn node_with_a_bad_number_is_an_error() {
    assert!(matches!(
        parse_nodes("NodeName=n1 State=IDLE CPUTot=lots"),
        Err(Error::SlurmParse(_))
    ));
}

#[test]
fn parses_partitions() {
    let input = "PartitionName=debug State=UP Nodes=node[1-4] TotalCPUs=256 TotalNodes=4 TRES=cpu=256,mem=512000M,node=4\n\nPartitionName=old State=DOWN\n\nPartitionName=odd State=INACTIVE";
    let partitions = parse_partitions(input).unwrap();
    assert_eq!(partitions.len(), 3);
    assert_eq!(partitions[0].name, "debug");
    assert_eq!(partitions[0].state, PartitionState::Up);
    assert_eq!(partitions[0].nodes.as_deref(), Some("node[1-4]"));
    assert_eq!(partitions[0].total_cpus, Some(256));
    assert_eq!(partitions[0].total_nodes, Some(4));
    let tres = partitions[0].tres.as_ref().unwrap();
    assert_eq!(tres.get("mem").map(String::as_str), Some("512000M"));
    assert_eq!(tres.len(), 3);
    assert_eq!(partitions[1].state, PartitionState::Down);
    assert!(partitions[1].tres.is_none());
    assert_eq!(partitions[2].state, PartitionState::Unknown);
}

#[test]
fn parses_job_details() {
    let input = "JobId=7 JobName=train UserId=alice(1000) JobState=PENDING Partition=gpu NumCPUs=16 NumNodes=2-4 NodeList=n1,n2 Command=/bin/train WorkDir=/home/alice TimeLimit=01:00:00\n\nJobId=8 JobName=x JobState=COMPLETED\n\nJobId=9 JobName=y JobState=FAILED\n\nJobId=10 JobName=z JobState=CANCELLED\n\nJobId=11 JobName=w JobState=SUSPENDED";
    let jobs = parse_jobs(input).unwrap();
    assert_eq!(jobs.len(), 5);
    let job = &jobs[0];
    assert_eq!(job.job_id, 7);
    assert_eq!(job.name, "train");
    assert_eq!(job.user.as_deref(), Some("alice(1000)"));
    assert_eq!(job.state, JobState::Pending);
    assert_eq!(job.partition.as_deref(), Some("gpu"));
    assert_eq!(job.num_cpus, Some(16));
    assert_eq!(job.num_nodes.as_deref(), Some("2-4"));
    assert_eq!(job.node_list, vec!["n1".to_string(), "n2".to_string()]);
    assert_eq!(job.command.as_deref(), Some("/bin/train"));
    assert_eq!(job.work_dir.as_deref(), Some("/home/alice"));
    assert_eq!(job.time_limit.as_deref(), Some("01:00:00"));
    assert_eq!(jobs[1].state, JobState::Completed);
    assert_eq!(jobs[2].state, JobState::Failed);
    assert_eq!(jobs[3].state, JobState::Cancelled);
    assert_eq!(jobs[4].state, JobState::Unknown);
}

#[test]
fn job_without_an_id_is_an_error() {
    assert!(matches!(
        parse_jobs("JobName=build JobState=RUNNING"),
        Err(Error::SlurmParse(_))
    ));
}

#[test]
fn cluster_is_keyed_by_name_and_id() {
    let raw = RawSlurmInfo {
        nodes: "NodeName=a State=IDLE\n\nNodeName=b State=IDLE\n\nNodeName=a State=DOWN".to_string(),
        partitions: "PartitionName=debug State=UP".to_string(),
        jobs: "JobId=3 JobName=x JobState=RUNNING\n\nJobId=5 JobName=y JobState=PENDING".to_string(),
    };
    let cluster = SlurmCluster::parse(&raw).unwrap();
    assert_eq!(cluster.nodes.len(), 2);
    assert_eq!(cluster.nodes.get("a").unwrap().state, NodeState::Down);
    assert_eq!(cluster.partitions.len(), 1);
    assert_eq!(job_count(&cluster.jobs), 2);
    assert_eq!(cluster.jobs.get(&5).unwrap().name, "y");
}

#[test]
fn cluster_fails_when_one_output_fails() {
    let raw = RawSlurmInfo {
        nodes: "NodeName=a State=IDLE".to_string(),
        partitions: "State=UP".to_string(),
        jobs: String::new(),
    };
    assert!(matches!(SlurmCluster::parse(&raw), Err(Error::SlurmParse(_))));
}

#[test]
fn values_read_as_booleans() {
    let yes = SlurmValue::Single("TRUE".to_string());
    assert_eq!(yes.to_bool(), Ok(true));
    assert_eq!(SlurmValue::Single("1".to_string()).to_bool(), Ok(true));
    assert_eq!(SlurmValue::Single("false".to_string()).to_bool(), Ok(false));
    assert_eq!(SlurmValue::Single("0".to_string()).to_bool(), Ok(false));
    let err = SlurmValue::Single("maybe".to_string()).to_bool().unwrap_err();
    assert_eq!(err.message(), "expected bool, got maybe");
    let err = SlurmValue::Repeated(vec!["1".to_string(), "0".to_string()]).to_bool().unwrap_err();
    assert_eq!(err.message(), "invalid type: sequence, expected a boolean");
}

#[test]
fn text_maps_compare_by_content() {
    let mut a: StrMap<String> = StrMap::new();
    a.insert("mem".to_string(), "1G".to_string());
    a.insert("cpu".to_string(), "2".to_string());
    let mut b: StrMap<String> = StrMap::new();
    b.insert("cpu".to_string(), "4".to_string());
    b.insert("mem".to_string(), "1G".to_string());
    b.insert("cpu".to_string(), "2".to_string());
    assert_eq!(a, b);
    assert_eq!(a.len(), 2);
    assert!(a.contains_key("cpu"));
    assert!(!a.contains_key("gpu"));
    assert_eq!(a.get("cpu").map(String::as_str), Some("2"));
    assert_eq!(format!("{:?}", a), format!("{:?}", b));
}

#[test]
fn one_record_reads_as_a_record_and_more_as_a_list() {
    match SlurmDeserializer::from_str("\n\nNodeName=a State=IDLE\n\n").deserialize_any() {
        SlurmDocument::One(record) => assert_eq!(single(&record, "NodeName").as_deref(), Some("a")),
        other => panic!("expected one record, got {:?}", other),
    }
    match SlurmDeserializer::from_str("NodeName=a\n\nNodeName=b").deserialize_any() {
        SlurmDocument::Many(records) => assert_eq!(records.len(), 2),
        other => panic!("expected records, got {:?}", other),
    }
    match SlurmDeserializer::from_str("  ").deserialize_any() {
        SlurmDocument::Many(records) => assert!(records.is_empty()),
        other => panic!("expected no records, got {:?}", other),
    }
}

#[test]
fn outputs_joined_by_a_blank_line_parse_in_turn() {
    let a = "NodeName=a State=IDLE CPUTot=2";
    let b = "NodeName=b State=DOWN\n\nNodeName=c State=MIX";
    let joined = format!("{a}\n\n{b}");
    let names = |nodes: Vec<slurm_docker::slurm::SlurmNode>| -> Vec<String> {
        nodes.into_iter().map(|n| n.name).collect()
    };
    let mut expected = names(parse_nodes(a).unwrap());
    expected.extend(names(parse_nodes(b).unwrap()));
    assert_eq!(names(parse_nodes(&joined).unwrap()), expected);
    assert!(parse_nodes(&format!("{a}\n\nState=IDLE")).is_err());
}

fn slurm_message<T: std::fmt::Debug>(r: Result<T, Error>) -> String {
    match r {
        Err(Error::SlurmParse(message)) => message,
        other => panic!("expected a slurm parse error, got {:?}", other),
    }
}

#[test]
fn record_errors_name_the_field() {
    assert_eq!(slurm_message(parse_nodes("State=IDLE")), "missing field `NodeName`");
    assert_eq!(slurm_message(parse_nodes("NodeName=a")), "missing field `State`");
    assert_eq!(
        slurm_message(parse_nodes("NodeName=a State=IDLE CPUTot=lots")),
        "invalid number: lots"
    );
    assert_eq!(
        slurm_message(parse_nodes("State=IDLE CPUTot=lots")),
        "invalid number: lots"
    );
    assert_eq!(
        slurm_message(parse_nodes("NodeName=a State=IDLE CfgTRES=cpu=2,,mem")),
        "invalid key-value pair: mem"
    );
    assert_eq!(
        slurm_message(parse_partitions("PartitionName=p State=UP State=DOWN")),
        "invalid type: sequence, expected enum PartitionState"
    );
    assert_eq!(
        slurm_message(parse_jobs("JobId=x JobName=j JobState=RUNNING")),
        "invalid number: x"
    );
    assert_eq!(
        slurm_message(parse_jobs("JobName=j JobState=RUNNING")),
        "missing field `JobId`"
    );
}

#[test]
fn cluster_reports_the_first_failing_output() {
    let raw = RawSlurmInfo {
        nodes: "NodeName=a State=IDLE".to_string(),
        partitions: "State=UP".to_string(),
        jobs: "JobName=x".to_string(),
    };
    assert_eq!(slurm_message(SlurmCluster::parse(&raw)), "missing field `PartitionName`");
}
