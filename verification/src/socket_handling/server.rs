//! The server's side of an exchange: what a request does to the registry
//! and to the ledger, and what is to be done for it.
//!
//! Nothing here touches a socket or the store. A request yields an
//! `Action` for the caller to perform; where the action calls the store,
//! the caller hands what the store gave to the function that the action
//! names, and gets the response.

use vstd::prelude::*;
use vstd::string::StringExecFns;
use crate::config::server::{text_set, ServerConfig};
use crate::constants::MIN_INPUT_INTERVAL;
use crate::json_handler::{
    is_sample_of,
    json_parsed,
    read_json_as_value,
    read_json_from_buf,
    text_in,
    FieldError,
    ToDevice,
};
use crate::socket_handling::codec::{decode, decoded, is_bare, token_of, Frame, FrameError};
use crate::socket_handling::command_type::{command_of, Commands};
use crate::socket_handling::identity::{digest, is_random_id, random_id, sha256_hex};
use crate::socket_handling::rate_limiter::{far_enough, last_accepted, RateLimiter};
use crate::stats_handling::device_info::Device;

verus! {

/// What a denied admin command is answered with.
pub open spec fn denial() -> Seq<char> {
    "You're not allowed to do that."@
}

/// What a stored sample is answered with.
pub open spec fn inserted() -> Seq<char> {
    "Data inserted"@
}

/// What a sample that was not stored is answered with.
pub open spec fn not_inserted() -> Seq<char> {
    "Failed to insert data"@
}

/// What a finished update is answered with.
pub open spec fn updated() -> Seq<char> {
    "Update success"@
}

/// The identifier that stands for "none" in a sample.
pub open spec fn no_device() -> Seq<char> {
    "N/A"@
}

/// A request as the handlers read it: the command, the texts that the
/// payload holds under the names that handlers look at, each absent where
/// the payload holds no text there, and the sample that comes with an
/// `INPUT`.
#[derive(Clone, Debug, PartialEq, Eq)]
pub struct Request {
    /// The command
    pub command: Commands,
    /// `deviceID`: the sender's identifier, or an admin's digest
    pub device_id: Option<String>,
    /// `deviceName`: the new name in a rename
    pub device_name: Option<String>,
    /// `renamedDeviceID`: the device that an admin renames
    pub renamed_device_id: Option<String>,
    /// `removedDeviceID`: the device that an admin removes
    pub removed_device_id: Option<String>,
    /// The sample that the payload holds, for an `INPUT`
    pub sample: Option<Device>,
}

/// Why a connection is closed without a response.
#[derive(Clone, Copy, Debug, PartialEq, Eq, Structural)]
pub enum Silence {
    /// The frame could not be read
    Malformed(FrameError),
    /// The payload lacks a text that the command needs
    MissingField,
    /// The device sent a sample too soon after the last accepted one
    TooSoon,
    /// The device is not registered
    NotRegistered,
    /// The command is unknown
    Unrecognized,
    /// The server was asked to stop
    Exit,
}

/// What is to be done for a request.
#[derive(Clone, Debug, PartialEq, Eq)]
pub enum Action {
    /// Close the connection without a response
    Close(Silence),
    /// Write the text, then close
    Respond(String),
    /// Store the sample, and answer with `input_response`
    Insert(Device),
    /// Have the store rename the device, and answer with what it reports
    Rename { device_id: String, device_name: String },
    /// Have the store delete every row of the device, and answer with what
    /// it reports
    Remove { device_id: String },
    /// Ask the store for its devices, and answer with `list_response`
    List,
    /// Draw candidates with `get_device_id` and offer each to
    /// `complete_setup`, until one is taken
    Setup,
    /// Update the server's binary, and answer with `update_response`
    Update,
}

/// The outcome of a request.
#[derive(Clone, Debug, PartialEq, Eq)]
pub struct Step {
    /// What is to be done
    pub action: Action,
    /// Whether the registry changed and is to be written out in full before
    /// anything else is done
    pub persist: bool,
}

/// A device as the store lists it, with the digest of its identifier.
#[derive(Clone, Debug, PartialEq, Eq)]
pub struct Listed {
    /// Display name of the device
    pub device_name: String,
    /// Identifier of the device
    pub device_id: String,
    /// SHA-256 digest of the identifier, in hexadecimal
    pub digest: String,
}

/// The state of a server between two requests.
pub struct Server {
    /// Whether the server was asked to stop; the accept loop looks at this
    /// after each connection
    pub exit: bool,
    /// Whether the caller logs what happens
    pub print: bool,
    device_times: RateLimiter,
    config: ServerConfig,
}

/// The text under `key` of the document `payload`, if it holds one.
pub open spec fn field(payload: Seq<u8>, key: Seq<char>) -> Option<Seq<char>> {
    match text_in(payload, key) {
        Ok(text) => Some(text),
        Err(_) => None,
    }
}

/// Whether `read` is the text `model`, or absent as `model` is.
pub open spec fn is_field(read: Option<String>, model: Option<Seq<char>>) -> bool {
    match model {
        Some(text) => read matches Some(held) && held@ == text,
        None => read is None,
    }
}

/// Whether `action` is a response that reads `text`.
pub open spec fn says(action: Action, text: Seq<char>) -> bool {
    action matches Action::Respond(held) && held@ == text
}

/// Whether `presented` is the digest of an admin of `registry`. A request
/// that presents nothing is no admin's.
pub open spec fn by_admin(registry: ServerConfig, presented: Option<String>) -> bool {
    presented matches Some(value) && registry.admins().contains(value@)
}

/// Whether `read` is the sample that comes with `command` and `payload`:
/// an `INPUT` whose payload is a JSON document brings the sample that the
/// document holds, and nothing else brings one.
pub open spec fn is_sample(read: Option<Device>, command: Commands, payload: Seq<u8>) -> bool {
    match json_parsed(payload) {
        Some(json) if command == Commands::INPUT => read matches Some(device) && is_sample_of(
            device,
            json,
        ),
        _ => read is None,
    }
}

/// Whether `request` is what the frame of `command` and `payload` asks
/// for.
pub open spec fn is_request(request: Request, command: Commands, payload: Seq<u8>) -> bool {
    &&& request.command == command
    &&& is_field(request.device_id, field(payload, "deviceID"@))
    &&& is_field(request.device_name, field(payload, "deviceName"@))
    &&& is_field(request.renamed_device_id, field(payload, "renamedDeviceID"@))
    &&& is_field(request.removed_device_id, field(payload, "removedDeviceID"@))
    &&& is_sample(request.sample, command, payload)
}

impl Request {
    /// Reads from a frame what the handlers look at.
    pub fn from_frame(frame: Frame) -> (request: Request)
        ensures
            is_request(request, frame.command, frame.payload@),
    {
        match read_json_as_value(frame.payload.as_slice()) {
            None => Request {
                command: frame.command,
                device_id: None,
                device_name: None,
                renamed_device_id: None,
                removed_device_id: None,
                sample: None,
            },
            Some(json) => {
                let device_id = text_option(read_json_from_buf("deviceID", &json));
                let device_name = text_option(read_json_from_buf("deviceName", &json));
                let renamed_device_id = text_option(read_json_from_buf("renamedDeviceID", &json));
                let removed_device_id = text_option(read_json_from_buf("removedDeviceID", &json));
                let sample = match frame.command {
                    Commands::INPUT => Some(json.to_device()),
                    _ => None,
                };
                Request {
                    command: frame.command,
                    device_id,
                    device_name,
                    renamed_device_id,
                    removed_device_id,
                    sample,
                }
            },
        }
    }
}

/// Forgets why a text is absent.
fn text_option(read: Result<String, FieldError>) -> (text: Option<String>)
    ensures
        text == match read {
            Ok(held) => Some(held),
            Err(_) => None,
        },
{
    match read {
        Ok(held) => Some(held),
        Err(_) => None,
    }
}

/// What a sample does: it is dropped without a word where it names no
/// device, comes too soon, or comes from a device that is not registered.
/// The ledger takes the time of every sample that does not come too soon,
/// registered or not. A sample that is stored gets the time of the server
/// in place of its own.
pub open spec fn input_handled(
    before: Server,
    after: Server,
    request: Request,
    now: i64,
    step: Step,
) -> bool {
    &&& after.registry() == before.registry()
    &&& after.stopping() == before.stopping()
    &&& after.printing() == before.printing()
    &&& !step.persist
    &&& match (request.device_id, request.sample) {
        (Some(device_id), Some(sample)) => if !far_enough(before.ledger(), device_id@, now) {
            after.ledger() == before.ledger() && step.action == Action::Close(Silence::TooSoon)
        } else {
            &&& after.ledger() == before.ledger().insert(device_id@, now)
            &&& if !before.registry().registered().contains(device_id@) {
                step.action == Action::Close(Silence::NotRegistered)
            } else if device_id@ == no_device() {
                says(step.action, not_inserted())
            } else {
                step.action == Action::Insert(Device { time: now, ..sample })
            }
        },
        _ => after.ledger() == before.ledger() && step.action == Action::Close(
            Silence::MissingField,
        ),
    }
}

/// What a rename does: the store is asked to rename the sender.
pub open spec fn rename_handled(before: Server, after: Server, request: Request, step: Step) -> bool {
    &&& after.unchanged(before)
    &&& !step.persist
    &&& match (request.device_id, request.device_name) {
        (Some(id), Some(name)) => step.action matches Action::Rename { device_id, device_name }
            && device_id@ == id@ && device_name@ == name@,
        _ => step.action == Action::Close(Silence::MissingField),
    }
}

/// What an admin's rename does: for an admin, the store is asked to rename
/// the device that the request names in place of the sender.
pub open spec fn admin_rename_handled(
    before: Server,
    after: Server,
    request: Request,
    step: Step,
) -> bool {
    &&& after.unchanged(before)
    &&& !step.persist
    &&& if !by_admin(before.registry(), request.device_id) {
        says(step.action, denial())
    } else {
        match (request.renamed_device_id, request.device_name) {
            (Some(id), Some(name)) => step.action matches Action::Rename { device_id, device_name }
                && device_id@ == id@ && device_name@ == name@,
            _ => step.action == Action::Close(Silence::MissingField),
        }
    }
}

/// What a removal does: for an admin, the device leaves the registry, the
/// registry is to be written out, and the store is asked to delete the
/// device's rows.
pub open spec fn remove_handled(before: Server, after: Server, request: Request, step: Step) -> bool {
    &&& after.ledger() == before.ledger()
    &&& after.stopping() == before.stopping()
    &&& after.printing() == before.printing()
    &&& after.registry().admin_ids == before.registry().admin_ids
    &&& after.registry().first_run == before.registry().first_run
    &&& if !by_admin(before.registry(), request.device_id) {
        &&& says(step.action, denial())
        &&& after.registry() == before.registry()
        &&& !step.persist
    } else {
        match request.removed_device_id {
            None => {
                &&& step.action == Action::Close(Silence::MissingField)
                &&& after.registry() == before.registry()
                &&& !step.persist
            },
            Some(removed) => {
                &&& step.action matches Action::Remove { device_id } && device_id@ == removed@
                &&& after.registry().registered() == before.registry().registered().remove(
                    removed@,
                )
                &&& step.persist
            },
        }
    }
}

/// What a command does that only an admin may give and that changes
/// nothing here: `granted` for an admin, the denial for anyone else.
pub open spec fn admin_only_handled(
    before: Server,
    after: Server,
    request: Request,
    step: Step,
    granted: Action,
) -> bool {
    &&& after.unchanged(before)
    &&& !step.persist
    &&& if by_admin(before.registry(), request.device_id) {
        step.action == granted
    } else {
        says(step.action, denial())
    }
}

/// What a request does to the server, and what is to be done for it.
pub open spec fn handled(before: Server, after: Server, request: Request, now: i64, step: Step) -> bool {
    match request.command {
        Commands::INPUT => input_handled(before, after, request, now, step),
        Commands::RENAME => rename_handled(before, after, request, step),
        Commands::AdminRename => admin_rename_handled(before, after, request, step),
        Commands::REMOVE => remove_handled(before, after, request, step),
        Commands::LIST => admin_only_handled(before, after, request, step, Action::List),
        Commands::UpdateServer => admin_only_handled(before, after, request, step, Action::Update),
        Commands::SETUP => after.unchanged(before) && !step.persist && step.action
            == Action::Setup,
        Commands::EXIT => {
            &&& after.ledger() == before.ledger()
            &&& after.registry() == before.registry()
            &&& after.printing() == before.printing()
            &&& after.stopping()
            &&& !step.persist
            &&& step.action == Action::Close(Silence::Exit)
        },
        Commands::ERROR => after.unchanged(before) && !step.persist && step.action
            == Action::Close(Silence::Unrecognized),
    }
}

/// What a frame does to the server, and what is to be done for it. A
/// frame that cannot be read changes nothing and gets no response; one
/// that can is handled as the request that it holds.
pub open spec fn processed(before: Server, after: Server, frame: Seq<u8>, now: i64, step: Step) -> bool {
    match decoded(frame) {
        Err(error) => {
            &&& after.unchanged(before)
            &&& !step.persist
            &&& step.action == Action::Close(Silence::Malformed(error))
        },
        Ok((command, payload)) => exists|request: Request|
            is_request(request, command, payload) && #[trigger] handled(
                before,
                after,
                request,
                now,
                step,
            ),
    }
}

/// The line that lists one device: its name, a colon and a space, its
/// identifier.
pub open spec fn line(device: Listed) -> Seq<char> {
    device.device_name@ + ": "@ + device.device_id@
}

/// The lines of those of `devices` whose digest is not an admin's, joined
/// by newlines.
pub open spec fn listing(devices: Seq<Listed>, admins: Set<Seq<char>>) -> Seq<char>
    decreases devices.len(),
{
    if devices.len() == 0 {
        Seq::empty()
    } else {
        let earlier = listing(devices.drop_last(), admins);
        let device = devices.last();
        if admins.contains(device.digest@) {
            earlier
        } else if earlier.len() == 0 {
            line(device)
        } else {
            earlier + "\n"@ + line(device)
        }
    }
}

/// Whether each of `listed` is the device of `devices` at its place, as
/// name and identifier, with the digest of its identifier.
pub open spec fn digested(listed: Seq<Listed>, devices: Seq<(String, String)>) -> bool {
    &&& listed.len() == devices.len()
    &&& forall|i: int|
        0 <= i < listed.len() ==> {
            &&& (#[trigger] listed[i]).device_name@ == devices[i].0@
            &&& listed[i].device_id@ == devices[i].1@
            &&& listed[i].digest@ == sha256_hex(devices[i].1@)
        }
}

impl Server {
    /// The ledger of the rate limiter.
    pub closed spec fn ledger(&self) -> Map<Seq<char>, i64> {
        self.device_times@
    }

    /// The registry.
    pub closed spec fn registry(&self) -> ServerConfig {
        self.config
    }

    /// Whether the server was asked to stop.
    pub closed spec fn stopping(&self) -> bool {
        self.exit
    }

    /// Whether the caller logs what happens.
    pub closed spec fn printing(&self) -> bool {
        self.print
    }

    /// Whether the server is as `before` was.
    pub open spec fn unchanged(&self, before: Server) -> bool {
        &&& self.ledger() == before.ledger()
        &&& self.registry() == before.registry()
        &&& self.stopping() == before.stopping()
        &&& self.printing() == before.printing()
    }

    /// A server with the registry `config` and an empty ledger.
    pub fn new(config: ServerConfig, print: bool) -> (server: Server)
        ensures
            server.registry() == config,
            server.ledger() == Map::<Seq<char>, i64>::empty(),
            !server.stopping(),
            server.printing() == print,
    {
        Server { exit: false, print, device_times: RateLimiter::new(), config }
    }

    /// The registry, as it is to be written out.
    pub fn config(&self) -> (config: &ServerConfig)
        ensures
            *config == self.registry(),
    {
        &self.config
    }

    /// The time at which `device_id` last had a sample accepted, zero where
    /// it never had.
    pub fn last_input(&self, device_id: &String) -> (time: i64)
        ensures
            time == last_accepted(self.ledger(), device_id@),
    {
        self.device_times.last(device_id)
    }

    /// Whether the server was asked to stop.
    pub fn is_stopping(&self) -> (stopping: bool)
        ensures
            stopping == self.stopping(),
    {
        self.exit
    }

    /// Whether the caller logs what happens.
    pub fn is_printing(&self) -> (printing: bool)
        ensures
            printing == self.printing(),
    {
        self.print
    }

    /// Whether the registry is to be reconciled with the store before the
    /// first connection is taken: it is on the first run, that is until the
    /// registry was reconciled once.
    pub fn needs_reconciliation(&self) -> (needed: bool)
        ensures
            needed == self.registry().first_run,
    {
        self.config.first_run
    }

    /// Reconciles the registry with the store on the first run: every
    /// identifier that the store holds is registered, those that were
    /// registered stay so, and the first run is over. On a later run
    /// nothing changes. Returns whether the registry changed and is to be
    /// written out in full.
    pub fn start(&mut self, store_ids: Vec<String>) -> (persist: bool)
        ensures
            persist == old(self).registry().first_run,
            persist ==> final(self).registry().registered() == old(
                self,
            ).registry().registered().union(text_set(store_ids@)),
            persist ==> !final(self).registry().first_run,
            !persist ==> final(self).registry() == old(self).registry(),
            final(self).registry().admin_ids == old(self).registry().admin_ids,
            final(self).ledger() == old(self).ledger(),
            final(self).stopping() == old(self).stopping(),
            final(self).printing() == old(self).printing(),
    {
        if self.config.first_run {
            self.config.reconcile(store_ids);
            true
        } else {
            false
        }
    }

    /// Whether `id` is the digest of an admin.
    pub fn admin_check(&self, id: &String) -> (admin: bool)
        ensures
            admin == self.registry().admins().contains(id@),
    {
        self.config.is_admin(id)
    }

    /// Whether the request presents the digest of an admin.
    fn presented_by_admin(&self, presented: &Option<String>) -> (admin: bool)
        ensures
            admin == by_admin(self.registry(), *presented),
    {
        match presented {
            Some(value) => self.config.is_admin(value),
            None => false,
        }
    }

    /// Handles a sample.
    fn input(&mut self, request: Request, now: i64) -> (step: Step)
        ensures
            input_handled(*old(self), *final(self), request, now, step),
    {
        let (device_id, sample) = match (request.device_id, request.sample) {
            (Some(device_id), Some(sample)) => (device_id, sample),
            _ => {
                return Step { action: Action::Close(Silence::MissingField), persist: false };
            },
        };
        if !self.device_times.accept(&device_id, now) {
            return Step { action: Action::Close(Silence::TooSoon), persist: false };
        }
        if !self.config.is_registered(&device_id) {
            return Step { action: Action::Close(Silence::NotRegistered), persist: false };
        }
        if device_id == String::from_str("N/A") {
            return Step {
                action: Action::Respond(String::from_str("Failed to insert data")),
                persist: false,
            };
        }
        let stored = Device {
            device_id: sample.device_id,
            device_name: sample.device_name,
            ram_used: sample.ram_used,
            ram_total: sample.ram_total,
            cpu_usage: sample.cpu_usage,
            processes: sample.processes,
            network_in: sample.network_in,
            network_out: sample.network_out,
            time: now,
        };
        Step { action: Action::Insert(stored), persist: false }
    }

    /// Handles a rename of `device_id`, which is the sender or the device
    /// that an admin named.
    fn rename(device_id: Option<String>, device_name: Option<String>) -> (step: Step)
        ensures
            !step.persist,
            match (device_id, device_name) {
                (Some(id), Some(name)) => step.action matches Action::Rename {
                    device_id: target,
                    device_name: title,
                } && target@ == id@ && title@ == name@,
                _ => step.action == Action::Close(Silence::MissingField),
            },
    {
        match (device_id, device_name) {
            (Some(device_id), Some(device_name)) => Step {
                action: Action::Rename { device_id, device_name },
                persist: false,
            },
            _ => Step { action: Action::Close(Silence::MissingField), persist: false },
        }
    }

    /// The denial.
    fn deny() -> (step: Step)
        ensures
            says(step.action, denial()),
            !step.persist,
    {
        Step {
            action: Action::Respond(String::from_str("You're not allowed to do that.")),
            persist: false,
        }
    }

    /// Handles a removal.
    fn remove_device(&mut self, request: Request) -> (step: Step)
        ensures
            remove_handled(*old(self), *final(self), request, step),
    {
        if !self.presented_by_admin(&request.device_id) {
            return Self::deny();
        }
        match request.removed_device_id {
            None => Step { action: Action::Close(Silence::MissingField), persist: false },
            Some(removed) => {
                self.config.unregister(&removed);
                Step { action: Action::Remove { device_id: removed }, persist: true }
            },
        }
    }

    /// Decides what is to be done for `request`, which arrived at `now`.
    pub fn handle(&mut self, request: Request, now: i64) -> (step: Step)
        ensures
            handled(*old(self), *final(self), request, now, step),
    {
        match request.command {
            Commands::INPUT => self.input(request, now),
            Commands::RENAME => Self::rename(request.device_id, request.device_name),
            Commands::AdminRename => {
                if self.presented_by_admin(&request.device_id) {
                    Self::rename(request.renamed_device_id, request.device_name)
                } else {
                    Self::deny()
                }
            },
            Commands::REMOVE => self.remove_device(request),
            Commands::LIST => {
                if self.presented_by_admin(&request.device_id) {
                    Step { action: Action::List, persist: false }
                } else {
                    Self::deny()
                }
            },
            Commands::UpdateServer => {
                if self.presented_by_admin(&request.device_id) {
                    Step { action: Action::Update, persist: false }
                } else {
                    Self::deny()
                }
            },
            Commands::SETUP => Step { action: Action::Setup, persist: false },
            Commands::EXIT => {
                self.exit = true;
                Step { action: Action::Close(Silence::Exit), persist: false }
            },
            Commands::ERROR => Step {
                action: Action::Close(Silence::Unrecognized),
                persist: false,
            },
        }
    }

    /// Reads the frame that a connection delivered at `now` and decides
    /// what is to be done for it. A frame that cannot be read changes
    /// nothing and gets no response.
    pub fn process_request(&mut self, frame: &[u8], now: i64) -> (step: Step)
        ensures
            processed(*old(self), *final(self), frame@, now, step),
            is_bare(frame@) ==> decoded(frame@) == Ok::<(Commands, Seq<u8>), FrameError>(
                (command_of(token_of(frame@)), Seq::empty()),
            ),
    {
        match decode(frame) {
            Err(error) => Step { action: Action::Close(Silence::Malformed(error)), persist: false },
            Ok(read) => {
                let request = Request::from_frame(read);
                let ghost seen = request;
                let step = self.handle(request, now);
                assert(handled(*old(self), *self, seen, now, step));
                step
            },
        }
    }

    /// Takes `candidate` as the identifier of a new device unless the store
    /// already holds it. A candidate that is taken is registered, the
    /// registry is to be written out, and the candidate is the response;
    /// for one that is not, nothing changes and another is to be drawn.
    pub fn complete_setup(&mut self, candidate: String, in_store: bool) -> (step: Option<Step>)
        ensures
            final(self).ledger() == old(self).ledger(),
            final(self).stopping() == old(self).stopping(),
            final(self).printing() == old(self).printing(),
            in_store ==> (step is None && final(self).registry() == old(self).registry()),
            !in_store ==> {
                &&& step matches Some(taken) && taken.persist && says(taken.action, candidate@)
                &&& final(self).registry().registered() == old(
                    self,
                ).registry().registered().insert(candidate@)
                &&& final(self).registry().admin_ids == old(self).registry().admin_ids
                &&& final(self).registry().first_run == old(self).registry().first_run
            },
    {
        if in_store {
            None
        } else {
            self.config.register(candidate.clone());
            Some(Step { action: Action::Respond(candidate), persist: true })
        }
    }

    /// The response to a list request: a line for each of `devices` whose
    /// digest is not an admin's.
    pub fn list_lines(&self, devices: &Vec<Listed>) -> (text: String)
        ensures
            text@ == listing(devices@, self.registry().admins()),
    {
        let mut text = String::new();
        let mut i: usize = 0;
        while i < devices.len()
            invariant
                i <= devices.len(),
                text@ == listing(devices@.take(i as int), self.registry().admins()),
            decreases devices.len() - i,
        {
            proof {
                assert(devices@.take(i + 1).drop_last() =~= devices@.take(i as int));
                reveal_strlit("\n");
                reveal_strlit(": ");
            }
            let device = &devices[i];
            if !self.config.is_admin(&device.digest) {
                if text.as_str().unicode_len() > 0 {
                    text.append("\n");
                }
                text.append(device.device_name.as_str());
                text.append(": ");
                text.append(device.device_id.as_str());
                assert(text@ =~= listing(devices@.take(i + 1), self.registry().admins()));
            }
            i = i + 1;
        }
        assert(devices@.take(devices.len() as int) =~= devices@);
        text
    }

    /// The response to a list request for the devices that the store
    /// holds, each given as its name and its identifier: the lines of
    /// those that are no admins.
    pub fn list_response(&self, devices: &Vec<(String, String)>) -> (text: String)
        ensures
            exists|listed: Seq<Listed>| #[trigger]
                digested(listed, devices@) && text@ == listing(
                    listed,
                    self.registry().admins(),
                ),
    {
        let mut listed: Vec<Listed> = Vec::new();
        let mut i: usize = 0;
        while i < devices.len()
            invariant
                i <= devices.len(),
                digested(listed@, devices@.take(i as int)),
            decreases devices.len() - i,
        {
            let device = &devices[i];
            listed.push(
                Listed {
                    device_name: device.0.clone(),
                    device_id: device.1.clone(),
                    digest: digest(device.1.as_str()),
                },
            );
            i = i + 1;
        }
        assert(devices@.take(devices.len() as int) =~= devices@);
        self.list_lines(&listed)
    }
}

/// Whoever presents no admin's digest with a list or a removal request gets
/// the denial, whatever else the payload holds, and the request changes
/// nothing and asks nothing of the store.
pub proof fn lemma_admin_commands_denied(
    before: Server,
    after: Server,
    request: Request,
    now: i64,
    step: Step,
)
    requires
        handled(before, after, request, now, step),
        request.command == Commands::LIST || request.command == Commands::REMOVE,
        !by_admin(before.registry(), request.device_id),
    ensures
        says(step.action, denial()),
        !step.persist,
        after.unchanged(before),
{
}

/// A frame with a list or a removal request whose payload names no admin's
/// digest as its `deviceID` gets the denial, whatever the shape of the
/// payload, and changes nothing.
pub proof fn lemma_unauthorized_frames_denied(
    before: Server,
    after: Server,
    frame: Seq<u8>,
    now: i64,
    step: Step,
)
    requires
        processed(before, after, frame, now, step),
        decoded(frame) matches Ok((command, payload)) && (command == Commands::LIST || command
            == Commands::REMOVE) && !(field(payload, "deviceID"@) matches Some(presented)
            && before.registry().admins().contains(presented)),
    ensures
        says(step.action, denial()),
        !step.persist,
        after.unchanged(before),
{
    let request = choose|request: Request|
        is_request(request, decoded(frame)->Ok_0.0, decoded(frame)->Ok_0.1) && #[trigger] handled(
            before,
            after,
            request,
            now,
            step,
        );
    lemma_admin_commands_denied(before, after, request, now, step);
}

/// Two samples of one device, the first of them accepted: the second is
/// dropped where it comes less than `MIN_INPUT_INTERVAL` seconds after the
/// first, and the ledger then stays as it was; it passes the rate limiter
/// where it comes later, and the ledger then holds its time.
pub proof fn lemma_input_spacing(
    start: Server,
    middle: Server,
    end: Server,
    first: Request,
    second: Request,
    first_at: i64,
    second_at: i64,
    first_step: Step,
    second_step: Step,
)
    requires
        handled(start, middle, first, first_at, first_step),
        handled(middle, end, second, second_at, second_step),
        first.command == Commands::INPUT,
        second.command == Commands::INPUT,
        first.device_id is Some,
        second.device_id is Some,
        first.sample is Some,
        second.sample is Some,
        first.device_id->0@ == second.device_id->0@,
        far_enough(start.ledger(), first.device_id->0@, first_at),
    ensures
        second_at - first_at < MIN_INPUT_INTERVAL ==> second_step.action == Action::Close(
            Silence::TooSoon,
        ) && end.ledger() == middle.ledger(),
        second_at - first_at >= MIN_INPUT_INTERVAL ==> second_step.action != Action::Close(
            Silence::TooSoon,
        ) && end.ledger() == middle.ledger().insert(first.device_id->0@, second_at),
{
}

/// Draws a candidate for the identifier of a new device: a random version
/// 4 UUID in its hyphenated form, which is never the identifier that stands
/// for "none". The draw is random: whether the candidate is free is for
/// the store to say.
pub fn get_device_id() -> (candidate: String)
    ensures
        is_random_id(candidate@),
        candidate@ != no_device(),
{
    proof {
        reveal_strlit("N/A");
    }
    random_id()
}

/// The response to a sample, once the store took it or failed to.
pub fn input_response(stored: bool) -> (text: String)
    ensures
        text@ == if stored {
            inserted()
        } else {
            not_inserted()
        },
{
    if stored {
        String::from_str("Data inserted")
    } else {
        String::from_str("Failed to insert data")
    }
}

/// The response to an update: a word where it went through, and none
/// where it failed.
pub fn update_response(done: bool) -> (text: Option<String>)
    ensures
        done ==> (text matches Some(held) && held@ == updated()),
        !done ==> text is None,
{
    if done {
        Some(String::from_str("Update success"))
    } else {
        None
    }
}

} // verus!
