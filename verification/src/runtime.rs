//! Runtime data types: layers, resources, commands, processes, and the traits through
//! which schedulers, hosts, containers and container engines are driven.
pub mod engine;
pub mod host;

use crate::dockerfile::{Dockerfile, Instruction};
use crate::Result;
use object_store::path::Path as ObjectPath;
use sha2::Digest;
use std::collections::BTreeMap;
use std::path::PathBuf;
use std::sync::Arc;
use std::time::Duration;
use vstd::prelude::*;

verus! {

#[verifier::external_type_specification]
#[verifier::external_body]
pub struct ExPathBuf(std::path::PathBuf);

/// `PathBuf::clone` gives a path equal to the one cloned.
pub assume_specification[ <std::path::PathBuf as Clone>::clone ](p: &PathBuf) -> (r: PathBuf)
    ensures
        r == *p,
;

#[verifier::external_type_specification]
#[verifier::external_body]
pub struct ExObjectPath(object_store::path::Path);

/// What `object_store::path::Path::from(&str)` makes of a text: its parts split at `/`,
/// empty parts dropped, each part percent-encoded where needed.
pub uninterp spec fn object_path_of(s: Seq<char>) -> ObjectPath;

/// Calls `<object_store::path::Path as From<&str>>::from`; its result is the name
/// `object_path_of` of the text.
#[verifier::external_body]
fn object_path_from(s: &str) -> (p: ObjectPath)
    ensures
        p == object_path_of(s@),
{
    ObjectPath::from(s)
}

/// Where a layer's content lives.
#[derive(Clone, Debug)]
pub enum LayerReference {
    Local(PathBuf),
    Remote { store_url: String, path: String },
}

impl LayerReference {
    /// The object-store path of a remote layer; a local layer has none.
    pub fn object_store_path(&self) -> (r: Option<ObjectPath>)
        ensures
            match self {
                LayerReference::Local(_) => r is None,
                LayerReference::Remote { path, .. } => r == Some(object_path_of(path@)),
            },
    {
        match self {
            LayerReference::Local(_) => None,
            LayerReference::Remote { path, .. } => Some(object_path_from(path.as_str())),
        }
    }
}

/// A content layer: an optional parent layer, where the content lives, and its checksum.
#[derive(Clone, Debug)]
pub struct Layer {
    parent: Option<Arc<Layer>>,
    reference: LayerReference,
    checksum: String,
}

impl Layer {
    pub closed spec fn spec_parent(&self) -> Option<Arc<Layer>> {
        self.parent
    }

    pub closed spec fn spec_reference(&self) -> LayerReference {
        self.reference
    }

    pub closed spec fn spec_checksum(&self) -> Seq<char> {
        self.checksum@
    }

    pub fn new(parent: Option<Arc<Layer>>, reference: LayerReference, checksum: String) -> (l: Self)
        ensures
            l.spec_parent() == parent,
            l.spec_reference() == reference,
            l.spec_checksum() == checksum@,
    {
        Self { parent, reference, checksum }
    }

    /// A layer without a parent whose content is at a local path.
    pub fn local(path: PathBuf, checksum: String) -> (l: Self)
        ensures
            l.spec_parent() is None,
            l.spec_reference() == LayerReference::Local(path),
            l.spec_checksum() == checksum@,
    {
        Self::new(None, LayerReference::Local(path), checksum)
    }

    pub fn parent(&self) -> (p: Option<&Arc<Layer>>)
        ensures
            match p {
                Some(a) => self.spec_parent() == Some(*a),
                None => self.spec_parent() is None,
            },
    {
        self.parent.as_ref()
    }

    pub fn reference(&self) -> (r: &LayerReference)
        ensures
            *r == self.spec_reference(),
    {
        &self.reference
    }

    pub fn checksum(&self) -> (c: &str)
        ensures
            c@ == self.spec_checksum(),
    {
        self.checksum.as_str()
    }
}


/// What SHA-256 gives for a byte string.
pub uninterp spec fn sha256_digest(data: Seq<u8>) -> Seq<u8>;

/// Calls `<sha2::Sha256 as sha2::Digest>::digest`; its result is the name
/// `sha256_digest` of the bytes, a 32-byte digest.
#[verifier::external_body]
fn sha256(data: &[u8]) -> (d: Vec<u8>)
    ensures
        d@ == sha256_digest(data@),
        d@.len() == 32,
{
    sha2::Sha256::digest(data).to_vec()
}

/// The lower-case hexadecimal digit of a value below 16.
pub open spec fn hex_digit(n: int) -> char {
    if n < 10 {
        (48 + n) as char
    } else {
        (87 + n) as char
    }
}

/// Lower-case hexadecimal text of bytes, two digits per byte.
pub open spec fn hex_lower(bytes: Seq<u8>) -> Seq<char>
    decreases bytes.len(),
{
    if bytes.len() == 0 {
        Seq::empty()
    } else {
        hex_lower(bytes.drop_last()) + seq![
            hex_digit(bytes.last() as int / 16),
            hex_digit(bytes.last() as int % 16),
        ]
    }
}

/// Calls `hex::encode`, which writes each byte as two lower-case hexadecimal digits.
#[verifier::external_body]
fn hex_encode(data: &[u8]) -> (s: String)
    ensures
        s@ == hex_lower(data@),
{
    hex::encode(data)
}

/// `v` extended with `b`.
fn extend_bytes(v: &mut Vec<u8>, b: &[u8])
    ensures
        final(v)@ == old(v)@ + b@,
{
    let mut k: usize = 0;
    while k < b.len()
        invariant
            k <= b@.len(),
            v@ == old(v)@ + b@.take(k as int),
        decreases b@.len() - k,
    {
        v.push(b[k]);
        assert(b@.take(k + 1) =~= b@.take(k as int).push(b@[k as int]));
        assert(old(v)@ + b@.take(k + 1) =~= old(v)@ + b@.take(k as int) + seq![b@[k as int]]);
        k += 1;
    }
    assert(b@.take(b@.len() as int) =~= b@);
}

/// A layer's content hash: SHA-256 over its parent's content hash (as text) and then its
/// checksum, in lower-case hexadecimal.
pub closed spec fn content_hash_spec(l: Layer) -> Seq<char>
    decreases l,
{
    let parent_bytes = match l.parent {
        Some(p) => vstd::utf8::encode_utf8(content_hash_spec(*p)),
        None => Seq::empty(),
    };
    hex_lower(sha256_digest(parent_bytes + vstd::utf8::encode_utf8(l.checksum@)))
}

/// The bytes a layer's hash starts from: its parent's content hash as text, if it has a
/// parent.
pub open spec fn parent_hash_bytes(l: Layer) -> Seq<u8> {
    match l.spec_parent() {
        Some(p) => vstd::utf8::encode_utf8(content_hash_spec(*p)),
        None => Seq::empty(),
    }
}

/// What a layer's content hash is: the lower-case hex of SHA-256 over its parent's hash
/// (as text, when it has a parent) followed by its checksum.
pub proof fn lemma_content_hash(l: Layer)
    ensures
        content_hash_spec(l) == hex_lower(
            sha256_digest(parent_hash_bytes(l) + vstd::utf8::encode_utf8(l.spec_checksum())),
        ),
{
}

/// A lower-case hexadecimal digit.
pub open spec fn is_hex_lower(c: char) -> bool {
    ('0' <= c && c <= '9') || ('a' <= c && c <= 'f')
}

/// Hex text has two lower-case hexadecimal digits per byte.
pub proof fn lemma_hex_lower(bytes: Seq<u8>)
    ensures
        hex_lower(bytes).len() == 2 * bytes.len(),
        forall|i: int| 0 <= i < hex_lower(bytes).len() ==> is_hex_lower(#[trigger] hex_lower(bytes)[i]),
    decreases bytes.len(),
{
    if bytes.len() > 0 {
        lemma_hex_lower(bytes.drop_last());
        let b = bytes.last() as int;
        let h = hex_lower(bytes);
        let p = hex_lower(bytes.drop_last());
        assert(h == p + seq![hex_digit(b / 16), hex_digit(b % 16)]);
        assert(is_hex_lower(hex_digit(b / 16)));
        assert(is_hex_lower(hex_digit(b % 16)));
        assert forall|i: int| 0 <= i < h.len() implies is_hex_lower(#[trigger] h[i]) by {
            if i < p.len() {
                assert(h[i] == p[i]);
            }
        }
    }
}

/// Two layers are equal when their checksums are equal and their parents are equal.
pub closed spec fn layer_eq(a: Layer, b: Layer) -> bool
    decreases a,
{
    a.checksum@ == b.checksum@ && match (a.parent, b.parent) {
        (None, None) => true,
        (Some(pa), Some(pb)) => layer_eq(*pa, *pb),
        _ => false,
    }
}

/// The parent of a layer that has one.
spec fn parent_of(l: Layer) -> Layer
    recommends
        l.parent is Some,
{
    *l.parent.unwrap()
}

/// Layers that are equal by `==` (same checksum, equal parents) have the same content
/// hash.
pub proof fn law_equal_layers_hash_alike(a: Layer, b: Layer)
    requires
        layer_eq(a, b),
    ensures
        content_hash_spec(a) == content_hash_spec(b),
    decreases depth(a),
{
    if a.parent is Some && b.parent is Some {
        law_equal_layers_hash_alike(parent_of(a), parent_of(b));
    }
}

/// Layer equality is an equivalence: reflexive, symmetric and transitive.
pub proof fn law_layer_eq_equivalence(a: Layer, b: Layer, c: Layer)
    ensures
        layer_eq(a, a),
        layer_eq(a, b) ==> layer_eq(b, a),
        layer_eq(a, b) && layer_eq(b, c) ==> layer_eq(a, c),
    decreases depth(a),
{
    if a.parent is Some {
        let pa = parent_of(a);
        let pb = if b.parent is Some { parent_of(b) } else { pa };
        let pc = if c.parent is Some { parent_of(c) } else { pa };
        law_layer_eq_equivalence(pa, pb, pc);
    }
}

/// The number of ancestors of a layer.
pub closed spec fn depth(l: Layer) -> nat
    decreases l,
{
    match l.parent {
        Some(p) => 1 + depth(*p),
        None => 0,
    }
}

impl Layer {
    /// SHA-256 over the parent's content hash and this layer's checksum, in hex.
    pub fn content_hash(&self) -> (h: String)
        ensures
            h@ == content_hash_spec(*self),
            h@.len() == 64,
            forall|i: int| 0 <= i < h@.len() ==> is_hex_lower(#[trigger] h@[i]),
        decreases self,
    {
        let mut data: Vec<u8> = Vec::new();
        match &self.parent {
            Some(parent) => {
                let ph = parent.content_hash();
                extend_bytes(&mut data, ph.as_str().as_bytes());
            },
            None => {},
        }
        extend_bytes(&mut data, self.checksum.as_str().as_bytes());
        let digest = sha256(data.as_slice());
        proof {
            lemma_hex_lower(digest@);
        }
        hex_encode(digest.as_slice())
    }
}

/// The bytes hashed for a listing of stored content: each entry's path as text, then its
/// content, in the order of the listing.
pub open spec fn listing_bytes(entries: Seq<(String, Vec<u8>)>) -> Seq<u8>
    decreases entries.len(),
{
    if entries.len() == 0 {
        Seq::empty()
    } else {
        listing_bytes(entries.drop_last()) + vstd::utf8::encode_utf8(entries.last().0@)
            + entries.last().1@
    }
}

/// The content hash of a listing of stored content (paths and their contents): SHA-256 over
/// each path and then its content, in lower-case hexadecimal.
pub fn listing_content_hash(entries: &Vec<(String, Vec<u8>)>) -> (h: String)
    ensures
        h@ == hex_lower(sha256_digest(listing_bytes(entries@))),
        h@.len() == 64,
{
    let mut data: Vec<u8> = Vec::new();
    let mut k: usize = 0;
    while k < entries.len()
        invariant
            k <= entries@.len(),
            data@ == listing_bytes(entries@.take(k as int)),
        decreases entries@.len() - k,
    {
        proof {
            assert(entries@.take(k + 1).drop_last() =~= entries@.take(k as int));
            assert(entries@.take(k + 1).last() == entries@[k as int]);
        }
        extend_bytes(&mut data, entries[k].0.as_str().as_bytes());
        extend_bytes(&mut data, entries[k].1.as_slice());
        k += 1;
    }
    assert(entries@.take(entries@.len() as int) =~= entries@);
    let digest = sha256(data.as_slice());
    proof {
        lemma_hex_lower(digest@);
    }
    hex_encode(digest.as_slice())
}

impl Layer {
    /// A layer whose checksum is the content hash of the listing of its stored content.
    pub fn from_listing(parent: Option<Arc<Layer>>, reference: LayerReference, entries: &Vec<(String, Vec<u8>)>) -> (l: Self)
        ensures
            l.spec_parent() == parent,
            l.spec_reference() == reference,
            l.spec_checksum() == hex_lower(sha256_digest(listing_bytes(entries@))),
    {
        let checksum = listing_content_hash(entries);
        Layer::new(parent, reference, checksum)
    }
}

impl PartialEq for Layer {
    fn eq(&self, other: &Self) -> (r: bool) {
        let mut a: &Layer = self;
        let mut b: &Layer = other;
        loop
            invariant
                layer_eq(*self, *other) == layer_eq(*a, *b),
            decreases depth(*a),
        {
            if a.checksum != b.checksum {
                return false;
            }
            match (&a.parent, &b.parent) {
                (Some(pa), Some(pb)) => {
                    a = &**pa;
                    b = &**pb;
                },
                (None, None) => {
                    return true;
                },
                _ => {
                    return false;
                },
            }
        }
    }
}

impl vstd::std_specs::cmp::PartialEqSpecImpl for Layer {
    open spec fn obeys_eq_spec() -> bool {
        true
    }

    open spec fn eq_spec(&self, other: &Layer) -> bool {
        layer_eq(*self, *other)
    }
}

impl Eq for Layer {

}


/// Compute resources.
#[derive(Clone, Copy, Debug, PartialEq, Eq, Structural)]
pub struct Resources {
    pub cpus: u32,
    pub gpus: u32,
    pub memory_bytes: u64,
}

impl Default for Resources {
    fn default() -> (r: Self)
        ensures
            r == (Resources { cpus: 0, gpus: 0, memory_bytes: 0 }),
    {
        Resources { cpus: 0, gpus: 0, memory_bytes: 0 }
    }
}

/// Resources and an optional time limit for a container.
#[derive(Clone, Debug, PartialEq, Eq)]
pub struct ResourceLimits {
    pub resources: Resources,
    pub time_limit: Option<Duration>,
}

impl Default for ResourceLimits {
    fn default() -> (r: Self)
        ensures
            r.resources == (Resources { cpus: 0, gpus: 0, memory_bytes: 0 }),
            r.time_limit is None,
    {
        ResourceLimits { resources: Resources::default(), time_limit: None }
    }
}

/// What a scheduler is asked for when it creates a host.
#[derive(Clone, Debug, PartialEq, Eq)]
pub struct HostConfig {
    pub name: Option<String>,
    pub partition: Option<String>,
    pub resources: Resources,
    pub time_limit: Option<Duration>,
}

/// What a scheduler records of a host it created.
#[derive(Clone, Debug, PartialEq, Eq)]
pub struct HostInfo {
    pub id: String,
    pub name: Option<String>,
    pub resources: Resources,
    pub time_limit: Option<Duration>,
}

/// A command to run: program, arguments, environment and working directory.
#[derive(Clone, Debug, PartialEq, Eq)]
pub struct CommandSpec {
    pub program: String,
    pub args: Vec<String>,
    pub env: BTreeMap<String, String>,
    pub working_dir: Option<PathBuf>,
}

pub struct CommandSpecV {
    pub program: Seq<char>,
    pub args: Seq<Seq<char>>,
    pub env: Map<String, String>,
    pub working_dir: Option<PathBuf>,
}

impl View for CommandSpec {
    type V = CommandSpecV;

    open spec fn view(&self) -> CommandSpecV {
        CommandSpecV {
            program: self.program@,
            args: crate::text::strs_view(self.args@),
            env: self.env@,
            working_dir: self.working_dir,
        }
    }
}

impl CommandSpec {
    /// A command that runs `program` with no arguments, an empty environment and no
    /// working directory.
    pub fn new(program: String) -> (c: Self)
        ensures
            c.program@ == program@,
            c.args@.len() == 0,
            c.env@ == Map::<String, String>::empty(),
            c.working_dir is None,
    {
        Self { program, args: Vec::new(), env: BTreeMap::new(), working_dir: None }
    }
}

#[derive(Clone, Copy, Debug, PartialEq, Eq, Structural)]
pub struct ProcessExit {
    pub code: Option<i32>,
}

#[derive(Clone, Debug, PartialEq, Eq)]
pub struct ProcessOutput {
    pub exit: ProcessExit,
    pub stdout: Vec<u8>,
    pub stderr: Vec<u8>,
}

#[derive(Clone, Debug, PartialEq, Eq)]
pub enum ContainerStatus {
    Created,
    Running,
    Finished(ProcessExit),
    Failed(String),
}

pub enum ContainerStatusV {
    Created,
    Running,
    Finished(ProcessExit),
    Failed(Seq<char>),
}

impl View for ContainerStatus {
    type V = ContainerStatusV;

    open spec fn view(&self) -> ContainerStatusV {
        match self {
            ContainerStatus::Created => ContainerStatusV::Created,
            ContainerStatus::Running => ContainerStatusV::Running,
            ContainerStatus::Finished(e) => ContainerStatusV::Finished(*e),
            ContainerStatus::Failed(m) => ContainerStatusV::Failed(m@),
        }
    }
}

impl ContainerStatus {
    /// A copy of the status.
    pub fn duplicate(&self) -> (r: Self)
        ensures
            r@ == self@,
    {
        match self {
            ContainerStatus::Created => ContainerStatus::Created,
            ContainerStatus::Running => ContainerStatus::Running,
            ContainerStatus::Finished(e) => ContainerStatus::Finished(*e),
            ContainerStatus::Failed(m) => ContainerStatus::Failed(m.clone()),
        }
    }
}

/// A process attached to a container.
pub trait AttachedProcess: Send {
    fn wait(&mut self) -> Result<ProcessExit>;

    fn send_stdin(&mut self, bytes: &[u8]) -> Result<usize>;
}

/// A container running on a host.
pub trait Container: Send + Sync {
    /// The container's id.
    spec fn spec_id(&self) -> Seq<char>;

    /// The id of the host the container runs on.
    spec fn spec_host_id(&self) -> Seq<char>;

    /// The layer the container started from.
    spec fn spec_base_layer(&self) -> Layer;

    fn id(&self) -> (r: &str)
        ensures
            r@ == self.spec_id(),
    ;

    fn host_id(&self) -> (r: &str)
        ensures
            r@ == self.spec_host_id(),
    ;

    fn base_layer(&self) -> (r: &Layer)
        ensures
            *r == self.spec_base_layer(),
    ;

    fn status(&self) -> Result<ContainerStatus>;

    fn attach_root(&self) -> Result<Box<dyn AttachedProcess>>;

    fn exec(&self, command: CommandSpec) -> Result<ProcessOutput>;

    fn final_layer(&self) -> Result<Option<Layer>>;
}


/// The layer the next container starts from: the final layer the last container reported,
/// else the layer it started from.
pub fn next_layer(current: Layer, reported: Option<Layer>) -> (l: Layer)
    ensures
        l == match reported {
            Some(x) => x,
            None => current,
        },
{
    match reported {
        Some(x) => x,
        None => current,
    }
}

/// Appends `x` to `v`; the length grows by one.
fn push_counted<T>(v: &mut Vec<T>, x: T)
    ensures
        final(v)@ == old(v)@.push(x),
        final(v)@.len() == old(v)@.len() + 1,
{
    v.push(x);
}

/// A host on which containers run.
pub trait Host: Send + Sync {
    /// The host's id.
    spec fn spec_id(&self) -> Seq<char>;

    /// The resources the host offers.
    spec fn spec_resources(&self) -> Resources;

    /// The host's time limit, if it has one.
    spec fn spec_time_limit(&self) -> Option<Duration>;

    fn id(&self) -> (r: &str)
        ensures
            r@ == self.spec_id(),
    ;

    fn resources(&self) -> (r: &Resources)
        ensures
            *r == self.spec_resources(),
    ;

    fn time_limit(&self) -> (r: Option<Duration>)
        ensures
            r == self.spec_time_limit(),
    ;

    fn launch_container(&self, layer: Layer, limits: ResourceLimits) -> Result<Box<dyn Container>>;

    fn launch_instruction(
        &self,
        instruction: &Instruction,
        layer: Layer,
        limits: ResourceLimits,
    ) -> Result<Box<dyn Container>>;

    /// Launches one container per top-level instruction, in order; each starts from the
    /// final layer of the one before, when that container reports one (`next_layer`). The
    /// first error of a launch or of a final layer is returned, and nothing after it is
    /// launched. On success there is one container per instruction.
    fn launch_dockerfile(&self, dockerfile: &Dockerfile, layer: Layer, limits: ResourceLimits) -> (r: Result<
        Vec<Box<dyn Container>>,
    >)
        ensures
            r matches Ok(v) ==> v@.len() == dockerfile.instructions@.len(),
            dockerfile.instructions@.len() == 0 ==> (r matches Ok(v) && v@.len() == 0),
    {
        let mut layer = layer;
        let mut containers: Vec<Box<dyn Container>> = Vec::new();
        let instructions = dockerfile.instructions();
        let mut k: usize = 0;
        while k < instructions.len()
            invariant
                k <= instructions@.len(),
                instructions@ == dockerfile.instructions@,
                containers@.len() == k,
            decreases instructions@.len() - k,
        {
            let container = self.launch_instruction(&instructions[k], layer.clone(), limits.clone())?;
            let reported = container.final_layer()?;
            layer = next_layer(layer, reported);
            push_counted(&mut containers, container);
            k += 1;
        }
        Ok(containers)
    }
}

/// A source of hosts.
pub trait Scheduler: Send + Sync {
    fn id(&self) -> &str;

    fn hosts(&self) -> Result<Vec<HostInfo>>;

    fn create_host(&self, config: HostConfig) -> Result<Box<dyn Host>>;
}

/// A request to a container engine.
#[derive(Clone, Debug)]
pub struct ContainerLaunch {
    pub host_id: String,
    pub layer: Layer,
    pub command: Option<CommandSpec>,
    pub limits: ResourceLimits,
}

/// A container as an engine reports it.
#[derive(Clone, Debug)]
pub struct EngineContainer {
    pub id: String,
    pub base_layer: Layer,
    pub status: ContainerStatus,
}

/// Something that launches containers and runs commands in them.
pub trait ContainerEngine: Send + Sync {
    fn name(&self) -> &str;

    fn launch(&self, request: ContainerLaunch) -> Result<EngineContainer>;

    fn attach(&self, container_id: &str) -> Result<Box<dyn AttachedProcess>>;

    fn exec(&self, container_id: &str, command: CommandSpec) -> Result<ProcessOutput>;

    fn diff(&self, container_id: &str) -> Result<Option<Layer>>;
}

} // verus!
