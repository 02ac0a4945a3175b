use slurm_docker::dockerfile::{
    group_stages, logical_lines, parse_ports, split_keyword, Dockerfile, FromInstruction,
    Healthcheck, Instruction, ShellOrExec,
};
use slurm_docker::Error;

#[test]
fn parses_basic_dockerfile() {
    let dockerfile = Dockerfile::parse(
        r#"
            FROM ubuntu:24.04
            ENV FOO=bar BAZ="qux quux"
            RUN echo hello
            COPY --from=builder src/ /app/
            "#,
    )
    .unwrap();

    assert_eq!(dockerfile.instructions.len(), 4);
    assert!(matches!(dockerfile.instructions[0], Instruction::From(_)));
    assert!(matches!(dockerfile.instructions[2], Instruction::Run(_)));
}

#[test]
fn groups_multi_stage_builds() {
    let dockerfile = Dockerfile::parse(
        r#"
            FROM rust:1 AS builder
            RUN cargo build
            FROM debian:stable
            COPY --from=builder /target/app /app
            "#,
    )
    .unwrap();

    assert_eq!(dockerfile.instructions.len(), 2);
    let Instruction::Stage { from, dockerfile } = &dockerfile.instructions[0] else {
        panic!("expected first instruction to be a stage");
    };
    assert_eq!(from.alias.as_deref(), Some("builder"));
    assert_eq!(dockerfile.instructions.len(), 1);
}

#[test]
fn single_stage_is_not_grouped() {
    let dockerfile = Dockerfile::parse("FROM alpine\nRUN true\nCMD [\"sh\"]").unwrap();
    assert_eq!(dockerfile.instructions().len(), 3);
    assert!(matches!(dockerfile.instructions()[0], Instruction::From(_)));
}

#[test]
fn instructions_before_the_first_from_join_the_first_stage() {
    let dockerfile =
        Dockerfile::parse("ARG BASE=alpine\nFROM a\nRUN one\nFROM b AS final\nRUN two").unwrap();
    let instructions = dockerfile.instructions();
    assert_eq!(instructions.len(), 2);
    let Instruction::Stage { from, dockerfile } = &instructions[0] else {
        panic!("expected a stage");
    };
    assert_eq!(from.image, "a");
    assert_eq!(dockerfile.instructions().len(), 2);
    assert!(matches!(&dockerfile.instructions()[0], Instruction::Arg { name, default } if name == "BASE" && default.as_deref() == Some("alpine")));
    let Instruction::Stage { from, dockerfile } = &instructions[1] else {
        panic!("expected a stage");
    };
    assert_eq!(from.image, "b");
    assert_eq!(from.alias.as_deref(), Some("final"));
    assert_eq!(dockerfile.instructions().len(), 1);
}

#[test]
fn parses_from_with_platform_and_alias() {
    let Instruction::From(from) =
        Instruction::parse("from --platform=linux/amd64 rust:1 as build").unwrap()
    else {
        panic!("expected FROM");
    };
    assert_eq!(
        from,
        FromInstruction {
            image: "rust:1".to_string(),
            platform: Some("linux/amd64".to_string()),
            alias: Some("build".to_string()),
        }
    );
}

#[test]
fn from_without_an_image_is_an_error() {
    assert!(matches!(
        Instruction::parse("FROM --platform=x"),
        Err(Error::DockerfileParse(_))
    ));
}

#[test]
fn keyword_is_case_insensitive() {
    assert_eq!(
        Instruction::parse("run echo hi").unwrap(),
        Instruction::parse("RUN echo hi").unwrap()
    );
}

#[test]
fn run_shell_and_exec_forms() {
    assert_eq!(
        Instruction::parse("RUN   echo hello  ").unwrap(),
        Instruction::Run(ShellOrExec::Shell("echo hello".to_string()))
    );
    assert_eq!(
        Instruction::parse("CMD [\"/bin/app\", \"--flag\"]").unwrap(),
        Instruction::Cmd(ShellOrExec::Exec(vec![
            "/bin/app".to_string(),
            "--flag".to_string()
        ]))
    );
}

#[test]
fn bad_exec_form_is_an_error() {
    assert!(matches!(
        ShellOrExec::parse("[\"unterminated\""),
        Err(Error::DockerfileParse(_))
    ));
}

#[test]
fn line_without_a_body_is_an_error() {
    match Instruction::parse("  RUN  ") {
        Err(e) => assert_eq!(e.message(), "dockerfile parse error: instruction has no body: RUN"),
        Ok(i) => panic!("expected an error, got {:?}", i),
    }
}

#[test]
fn splits_keyword_from_body() {
    assert_eq!(
        split_keyword("copy  a b ").unwrap(),
        ("COPY".to_string(), "a b".to_string())
    );
    assert!(split_keyword("HEALTHCHECK").is_err());
}

#[test]
fn comments_and_parser_directives() {
    assert_eq!(
        Instruction::parse("# Syntax = docker/dockerfile:1").unwrap(),
        Instruction::ParserDirective {
            key: "syntax".to_string(),
            value: "docker/dockerfile:1".to_string()
        }
    );
    assert_eq!(
        Instruction::parse("#  just a note ").unwrap(),
        Instruction::Comment("just a note".to_string())
    );
}

#[test]
fn env_and_label_values() {
    let Instruction::Env(kvs) = Instruction::parse("ENV FOO=bar BAZ=\"qux quux\"").unwrap() else {
        panic!("expected ENV");
    };
    assert_eq!(kvs.len(), 2);
    assert_eq!(kvs[0].key, "FOO");
    assert_eq!(kvs[0].value, "bar");
    assert_eq!(kvs[1].key, "BAZ");
    assert_eq!(kvs[1].value, "qux quux");

    let Instruction::Env(legacy) = Instruction::parse("ENV NAME some long value").unwrap() else {
        panic!("expected ENV");
    };
    assert_eq!(legacy.len(), 1);
    assert_eq!(legacy[0].key, "NAME");
    assert_eq!(legacy[0].value, "some long value");
}

#[test]
fn unbalanced_quote_is_an_error() {
    match Instruction::parse("LABEL a=\"b") {
        Err(e) => assert_eq!(
            e.message(),
            "dockerfile parse error: invalid key/value list: missing closing quote"
        ),
        Ok(i) => panic!("expected an error, got {:?}", i),
    }
}

#[test]
fn copy_flags_sources_and_destination() {
    let Instruction::Copy(copy) =
        Instruction::parse("COPY --chown=1:1 --from=builder a b /dest/").unwrap()
    else {
        panic!("expected COPY");
    };
    assert_eq!(copy.flags, vec!["--chown=1:1".to_string(), "--from=builder".to_string()]);
    assert_eq!(copy.from.as_deref(), Some("builder"));
    assert_eq!(copy.sources, vec!["a".to_string(), "b".to_string()]);
    assert_eq!(copy.destination, "/dest/");
    assert!(Instruction::parse("ADD onlyone").is_err());
}

#[test]
fn ports_with_and_without_protocol() {
    let ports = parse_ports("80 443/tcp 53/udp");
    assert_eq!(ports.len(), 3);
    assert_eq!(ports[0].port, "80");
    assert_eq!(ports[0].protocol, None);
    assert_eq!(ports[1].protocol.as_deref(), Some("tcp"));
    assert_eq!(ports[2].port, "53");
}

#[test]
fn healthcheck_forms() {
    assert_eq!(
        Instruction::parse("HEALTHCHECK none").unwrap(),
        Instruction::Healthcheck(Healthcheck::Disabled)
    );
    let Instruction::Healthcheck(Healthcheck::Command { options, command }) =
        Instruction::parse("HEALTHCHECK --interval=5s CMD curl -f http://localhost/").unwrap()
    else {
        panic!("expected a healthcheck command");
    };
    assert_eq!(options, vec!["--interval=5s".to_string()]);
    assert_eq!(command, ShellOrExec::Shell("curl -f http://localhost/".to_string()));
    assert!(Instruction::parse("HEALTHCHECK --interval=5s").is_err());
}

#[test]
fn onbuild_volume_shell_and_unknown() {
    assert_eq!(
        Instruction::parse("ONBUILD run make").unwrap(),
        Instruction::Onbuild(Box::new(Instruction::Run(ShellOrExec::Shell(
            "make".to_string()
        ))))
    );
    assert_eq!(
        Instruction::parse("VOLUME /data /logs").unwrap(),
        Instruction::Volume(vec!["/data".to_string(), "/logs".to_string()])
    );
    assert_eq!(
        Instruction::parse("VOLUME [\"/data\"]").unwrap(),
        Instruction::Volume(vec!["/data".to_string()])
    );
    assert_eq!(
        Instruction::parse("SHELL [\"/bin/bash\", \"-c\"]").unwrap(),
        Instruction::Shell(vec!["/bin/bash".to_string(), "-c".to_string()])
    );
    assert_eq!(
        Instruction::parse("frobnicate  the thing ").unwrap(),
        Instruction::Unknown {
            keyword: "FROBNICATE".to_string(),
            value: "the thing".to_string()
        }
    );
}

#[test]
fn continuation_lines_are_joined() {
    let lines = logical_lines("RUN a \\\n    && b\n\nCMD c\r\n");
    assert_eq!(
        lines,
        vec!["RUN a      && b".to_string(), String::new(), "CMD c".to_string()]
    );
    let dockerfile = Dockerfile::parse("RUN apt-get update \\\n  && apt-get install -y x\n").unwrap();
    assert_eq!(
        dockerfile.instructions()[0],
        Instruction::Run(ShellOrExec::Shell(
            "apt-get update    && apt-get install -y x".to_string()
        ))
    );
}

#[test]
fn from_str_parses_like_parse() {
    let text = "FROM a\nRUN b";
    let parsed: Dockerfile = text.parse().unwrap();
    assert_eq!(parsed, Dockerfile::parse(text).unwrap());
}

#[test]
fn grouping_keeps_every_instruction() {
    let instructions = vec![
        Instruction::parse("FROM a").unwrap(),
        Instruction::parse("RUN x").unwrap(),
        Instruction::parse("FROM b").unwrap(),
        Instruction::parse("RUN y").unwrap(),
        Instruction::parse("RUN z").unwrap(),
    ];
    let grouped = group_stages(instructions);
    assert_eq!(grouped.len(), 2);
    let Instruction::Stage { dockerfile, .. } = &grouped[1] else {
        panic!("expected a stage");
    };
    assert_eq!(dockerfile.instructions().len(), 2);
}

#[test]
fn logical_lines_come_out_trimmed() {
    for line in logical_lines("  RUN a \\\n  b  \n\t CMD x \t\n   \n") {
        assert_eq!(line.trim(), line);
    }
}
