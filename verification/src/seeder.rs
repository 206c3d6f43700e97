//! Seeding behind a trait.
//!
//! [`NoopSeeder`] only records what it was asked to seed, for a server that does
//! not seed: torrents and magnet links are made either way, so that any client can
//! seed them. [`CarlSeeder`] has a process of the `carl` seeder started for each
//! torrent.
use vstd::prelude::*;
use vstd::string::*;
use crate::text::{decimal, decimal_text, same_text, texts};

verus! {

/// What became of a torrent.
#[derive(Debug)]
pub struct SeedStatus {
    /// The infohash of the torrent.
    pub infohash: String,
    /// The path of the .torrent file.
    pub torrent_path: String,
    /// Whether it is being seeded.
    pub seeding: bool,
    /// How, or why not.
    pub detail: String,
}

/// A [`SeedStatus`] in mathematical terms.
pub struct SeedStatusView {
    /// See [`SeedStatus::infohash`].
    pub infohash: Seq<char>,
    /// See [`SeedStatus::torrent_path`].
    pub torrent_path: Seq<char>,
    /// See [`SeedStatus::seeding`].
    pub seeding: bool,
    /// See [`SeedStatus::detail`].
    pub detail: Seq<char>,
}

impl View for SeedStatus {
    type V = SeedStatusView;

    open spec fn view(&self) -> SeedStatusView {
        SeedStatusView {
            infohash: self.infohash@,
            torrent_path: self.torrent_path@,
            seeding: self.seeding,
            detail: self.detail@,
        }
    }
}

impl Clone for SeedStatus {
    fn clone(&self) -> (r: SeedStatus)
        ensures
            r@ == self@,
    {
        SeedStatus {
            infohash: self.infohash.clone(),
            torrent_path: self.torrent_path.clone(),
            seeding: self.seeding,
            detail: self.detail.clone(),
        }
    }
}

/// Statuses in mathematical terms.
pub open spec fn status_views(v: Seq<SeedStatus>) -> Seq<SeedStatusView> {
    v.map_values(|x: SeedStatus| x@)
}

/// A copy of statuses.
fn copy_statuses(v: &Vec<SeedStatus>) -> (r: Vec<SeedStatus>)
    ensures
        status_views(r@) == status_views(v@),
{
    let mut r: Vec<SeedStatus> = Vec::new();
    let mut i: usize = 0;
    while i < v.len()
        invariant
            i <= v@.len(),
            r@.len() == i,
            forall|j: int| 0 <= j < i ==> (#[trigger] r@[j])@ == v@[j]@,
        decreases v.len() - i,
    {
        r.push(v[i].clone());
        i = i + 1;
    }
    assert(status_views(r@) =~= status_views(v@));
    r
}

/// A seeder. It records a status for everything that it is asked to seed.
pub trait Seeder {
    /// The statuses so far.
    spec fn recorded(&self) -> Seq<SeedStatusView>;

    /// The name of the kind of seeder.
    spec fn kind(&self) -> Seq<char>;

    /// Whether seeding the torrent of a .torrent file, the payload of which is in a
    /// directory, may come to a status and to the seeder `after`.
    spec fn may_seed(
        &self,
        infohash: Seq<char>,
        torrent_path: Seq<char>,
        data_dir: Seq<char>,
        status: SeedStatusView,
        after: &Self,
    ) -> bool;

    /// Seeds the torrent of a .torrent file, the payload of which is in `data_dir`.
    fn seed(&mut self, infohash: &str, torrent_path: &str, data_dir: &str) -> (status: SeedStatus)
        ensures
            status@.infohash == infohash@,
            status@.torrent_path == torrent_path@,
            final(self).recorded() == old(self).recorded().push(status@),
            old(self).may_seed(infohash@, torrent_path@, data_dir@, status@, final(self)),
    ;

    /// The statuses so far.
    fn statuses(&self) -> (v: Vec<SeedStatus>)
        ensures
            status_views(v@) == self.recorded(),
    ;

    /// The name of the kind of seeder.
    fn name(&self) -> (name: &'static str)
        ensures
            name@ == self.kind(),
    ;
}

/// A seeder that does not seed.
pub struct NoopSeeder {
    statuses: Vec<SeedStatus>,
    reason: String,
}

impl NoopSeeder {
    /// Why it does not seed.
    pub closed spec fn why(&self) -> Seq<char> {
        self.reason@
    }

    /// A seeder that does not seed, and why.
    pub fn new(reason: &str) -> (s: NoopSeeder)
        ensures
            s.why() == reason@,
            s.recorded() == Seq::<SeedStatusView>::empty(),
    {
        let s = NoopSeeder { statuses: Vec::new(), reason: reason.to_owned() };
        assert(s.recorded() =~= Seq::<SeedStatusView>::empty());
        s
    }
}

impl Seeder for NoopSeeder {
    closed spec fn recorded(&self) -> Seq<SeedStatusView> {
        status_views(self.statuses@)
    }

    open spec fn kind(&self) -> Seq<char> {
        "noop"@
    }

    /// It does nothing with the directory.
    open spec fn may_seed(
        &self,
        infohash: Seq<char>,
        torrent_path: Seq<char>,
        data_dir: Seq<char>,
        status: SeedStatusView,
        after: &Self,
    ) -> bool {
        &&& status == (SeedStatusView {
            infohash,
            torrent_path,
            seeding: false,
            detail: self.why(),
        })
        &&& after.why() == self.why()
        &&& after.recorded() == self.recorded().push(status)
    }

    fn seed(&mut self, infohash: &str, torrent_path: &str, data_dir: &str) -> (status: SeedStatus) {
        let status = SeedStatus {
            infohash: infohash.to_owned(),
            torrent_path: torrent_path.to_owned(),
            seeding: false,
            detail: self.reason.clone(),
        };
        self.statuses.push(status.clone());
        assert(self.recorded() =~= old(self).recorded().push(status@));
        status
    }

    fn statuses(&self) -> (v: Vec<SeedStatus>) {
        copy_statuses(&self.statuses)
    }

    fn name(&self) -> (name: &'static str) {
        "noop"
    }
}

/// A seeder that runs a process of `carl` for each torrent. `spawn` starts the one
/// for an infohash, of a .torrent file and the directory of its payload, at a port,
/// or says why it could not; the processes are its to keep.
pub struct CarlSeeder<F: Fn(&str, &str, &str, u16) -> Result<(), String>> {
    base_port: u16,
    running: Vec<String>,
    statuses: Vec<SeedStatus>,
    starter: Starter<F>,
}

/// What starts processes, of whatever torrent at whatever port.
struct Starter<F: Fn(&str, &str, &str, u16) -> Result<(), String>> {
    spawn: F,
}

impl<F: Fn(&str, &str, &str, u16) -> Result<(), String>> Starter<F> {
    #[verifier::type_invariant]
    spec fn well_formed(self) -> bool {
        forall|infohash: &str, torrent_path: &str, data_dir: &str, port: u16| #[trigger]
            self.spawn.requires((infohash, torrent_path, data_dir, port))
    }
}

/// The arguments of the process that seeds a torrent at a port.
pub open spec fn seed_arguments(torrent_path: Seq<char>, data_dir: Seq<char>, port: u16) -> Seq<
    Seq<char>,
> {
    seq!["seed"@, torrent_path, data_dir, "--port"@, decimal(port as nat)]
}

/// The arguments of the process that seeds a torrent at a port.
pub fn seed_args(torrent_path: &str, data_dir: &str, port: u16) -> (args: Vec<String>)
    ensures
        texts(args@) == seed_arguments(torrent_path@, data_dir@, port),
{
    let mut args: Vec<String> = Vec::new();
    args.push("seed".to_owned());
    args.push(torrent_path.to_owned());
    args.push(data_dir.to_owned());
    args.push("--port".to_owned());
    args.push(decimal_text(port as u64));
    assert(texts(args@) =~= seed_arguments(torrent_path@, data_dir@, port));
    args
}

/// The port of the next process: as many above the first as are running; nothing
/// where there is no such port.
pub open spec fn port_after(first: u16, running: nat) -> Option<u16> {
    if first + running <= u16::MAX {
        Some((first + running) as u16)
    } else {
        None
    }
}

/// Why a process could not be started, where it could not.
pub open spec fn failure_in(out: Result<(), String>) -> Option<Seq<char>> {
    match out {
        Ok(_) => None,
        Err(e) => Some(e@),
    }
}

/// The infohashes that are running after a process for one more was started.
pub open spec fn started_with(started: Seq<Seq<char>>, infohash: Seq<char>) -> Seq<Seq<char>> {
    if started.contains(infohash) {
        started
    } else {
        started.push(infohash)
    }
}

impl<F: Fn(&str, &str, &str, u16) -> Result<(), String>> CarlSeeder<F> {
    /// The port of the first process.
    pub closed spec fn first_port(&self) -> u16 {
        self.base_port
    }

    /// The infohashes that a process was started for, each once.
    pub closed spec fn started(&self) -> Seq<Seq<char>> {
        self.running@.map_values(|s: String| s@)
    }

    /// What starts the processes.
    pub closed spec fn starter(&self) -> F {
        self.starter.spawn
    }

    /// A seeder whose first process listens at a port.
    pub fn new(base_port: u16, spawn: F) -> (s: CarlSeeder<F>)
        requires
            forall|infohash: &str, torrent_path: &str, data_dir: &str, port: u16| #[trigger]
                spawn.requires((infohash, torrent_path, data_dir, port)),
        ensures
            s.first_port() == base_port,
            s.starter() == spawn,
            s.started() == Seq::<Seq<char>>::empty(),
            s.recorded() == Seq::<SeedStatusView>::empty(),
    {
        let s = CarlSeeder { base_port, running: Vec::new(), statuses: Vec::new(), starter: Starter { spawn } };
        assert(s.started() =~= Seq::<Seq<char>>::empty());
        assert(s.recorded() =~= Seq::<SeedStatusView>::empty());
        s
    }

    /// The port of the next process.
    fn next_port(&self) -> (port: Option<u16>)
        ensures
            port == port_after(self.first_port(), self.started().len()),
    {
        let n: usize = self.running.len();
        if n > 65535 {
            return None;
        }
        let p: u32 = self.base_port as u32 + n as u32;
        if p > 65535 {
            None
        } else {
            Some(p as u16)
        }
    }

    /// Whether a process was started for an infohash.
    fn is_running(&self, infohash: &str) -> (known: bool)
        ensures
            known == self.started().contains(infohash@),
    {
        let mut i: usize = 0;
        while i < self.running.len()
            invariant
                i <= self.running@.len(),
                forall|j: int| 0 <= j < i ==> (#[trigger] self.running@[j])@ != infohash@,
            decreases self.running.len() - i,
        {
            if same_text(self.running[i].as_str(), infohash) {
                assert(self.started()[i as int] == infohash@);
                return true;
            }
            i = i + 1;
        }
        proof {
            if self.started().contains(infohash@) {
                let j = choose|j: int|
                    0 <= j < self.started().len() && self.started()[j] == infohash@;
                assert(self.running@[j]@ == infohash@);
            }
        }
        false
    }
}

impl<F: Fn(&str, &str, &str, u16) -> Result<(), String>> Seeder for CarlSeeder<F> {
    closed spec fn recorded(&self) -> Seq<SeedStatusView> {
        status_views(self.statuses@)
    }

    open spec fn kind(&self) -> Seq<char> {
        "carl"@
    }

    /// A process is started at the next port, where there is one.
    open spec fn may_seed(
        &self,
        infohash: Seq<char>,
        torrent_path: Seq<char>,
        data_dir: Seq<char>,
        status: SeedStatusView,
        after: &Self,
    ) -> bool {
        &&& after.first_port() == self.first_port()
        &&& after.starter() == self.starter()
        &&& after.recorded() == self.recorded().push(status)
        &&& match port_after(self.first_port(), self.started().len()) {
            Some(port) => exists|i: &str, t: &str, d: &str, out: Result<(), String>|
                {
                    &&& i@ == infohash && t@ == torrent_path && d@ == data_dir
                    &&& #[trigger] self.starter().ensures((i, t, d, port), out)
                    &&& status == carl_status(infohash, torrent_path, port, failure_in(out))
                    &&& after.started() == (if out is Ok {
                        started_with(self.started(), infohash)
                    } else {
                        self.started()
                    })
                },
            None => {
                &&& status == carl_status(infohash, torrent_path, 0, Some("no port is left"@))
                &&& after.started() == self.started()
            },
        }
    }

    /// Of two processes for one infohash the second takes the place of the first.
    fn seed(&mut self, infohash: &str, torrent_path: &str, data_dir: &str) -> (status: SeedStatus)
        ensures
            final(self).first_port() == old(self).first_port(),
            final(self).starter() == old(self).starter(),
            match port_after(old(self).first_port(), old(self).started().len()) {
                Some(port) => exists|out: Result<(), String>|
                    {
                        &&& #[trigger] old(self).starter().ensures(
                            (infohash, torrent_path, data_dir, port),
                            out,
                        )
                        &&& status@ == carl_status(
                            infohash@,
                            torrent_path@,
                            port,
                            failure_in(out),
                        )
                        &&& final(self).started() == (if out is Ok {
                            started_with(old(self).started(), infohash@)
                        } else {
                            old(self).started()
                        })
                    },
                None => {
                    &&& status@ == carl_status(
                        infohash@,
                        torrent_path@,
                        0,
                        Some("no port is left"@),
                    )
                    &&& final(self).started() == old(self).started()
                },
            },
    {
        proof {
            use_type_invariant(&self.starter);
        }
        let out: Result<u16, String> = match self.next_port() {
            Some(port) => {
                let spawn = &self.starter.spawn;
                let out = spawn(infohash, torrent_path, data_dir, port);
                assert(old(self).starter().ensures((infohash, torrent_path, data_dir, port), out));
                match out {
                    Ok(_) => Ok(port),
                    Err(e) => Err(e),
                }
            },
            None => Err("no port is left".to_owned()),
        };
        let status = match out {
            Ok(port) => {
                if !self.is_running(infohash) {
                    self.running.push(infohash.to_owned());
                    assert(self.started() =~= old(self).started().push(infohash@));
                }
                let mut detail = "carl seeding on port ".to_owned();
                detail.append(decimal_text(port as u64).as_str());
                SeedStatus {
                    infohash: infohash.to_owned(),
                    torrent_path: torrent_path.to_owned(),
                    seeding: true,
                    detail,
                }
            },
            Err(e) => {
                let mut detail = "failed to spawn carl: ".to_owned();
                detail.append(e.as_str());
                SeedStatus {
                    infohash: infohash.to_owned(),
                    torrent_path: torrent_path.to_owned(),
                    seeding: false,
                    detail,
                }
            },
        };
        self.statuses.push(status.clone());
        assert(self.recorded() =~= old(self).recorded().push(status@));
        status
    }

    fn statuses(&self) -> (v: Vec<SeedStatus>) {
        copy_statuses(&self.statuses)
    }

    fn name(&self) -> (name: &'static str) {
        "carl"
    }
}

/// The status of a torrent whose process was started at a port, or could not be.
pub open spec fn carl_status(
    infohash: Seq<char>,
    torrent_path: Seq<char>,
    port: u16,
    failure: Option<Seq<char>>,
) -> SeedStatusView {
    match failure {
        None => SeedStatusView {
            infohash,
            torrent_path,
            seeding: true,
            detail: "carl seeding on port "@ + decimal(port as nat),
        },
        Some(e) => SeedStatusView {
            infohash,
            torrent_path,
            seeding: false,
            detail: "failed to spawn carl: "@ + e,
        },
    }
}

/// Every process has a port of its own: they are counted up from the first, one for each that is
/// running, as far as there are ports.
pub proof fn law_ports_counted_up(first: u16, running: nat, other: nat)
    ensures
        port_after(first, running) matches Some(port) ==> port == first + running,
        port_after(first, running) is None <==> first + running > 65535,
        running != other && port_after(first, running) is Some ==> port_after(first, running)
            != port_after(first, other),
{
}

/// A torrent counts as seeded just where its process was started, and tells its port; else it tells
/// why not.
pub proof fn law_seeded_where_started(
    infohash: Seq<char>,
    torrent_path: Seq<char>,
    port: u16,
    failure: Option<Seq<char>>,
)
    ensures
        ({
            let status = carl_status(infohash, torrent_path, port, failure);
            &&& status.seeding <==> failure is None
            &&& status.infohash == infohash
            &&& status.torrent_path == torrent_path
            &&& failure is None ==> status.detail == "carl seeding on port "@ + decimal(port as nat)
            &&& failure matches Some(why) ==> status.detail == "failed to spawn carl: "@ + why
        }),
{
}

/// A process is asked to seed the .torrent file and the directory, at its port.
pub proof fn law_process_told_all(torrent_path: Seq<char>, data_dir: Seq<char>, port: u16)
    ensures
        seed_arguments(torrent_path, data_dir, port) == seq![
            "seed"@,
            torrent_path,
            data_dir,
            "--port"@,
            decimal(port as nat),
        ],
{
}

/// A torrent that a process was started for is running then, once, and the others still are.
pub proof fn law_started_once(started: Seq<Seq<char>>, infohash: Seq<char>, other: Seq<char>)
    requires
        started.no_duplicates(),
    ensures
        started_with(started, infohash).contains(infohash),
        started.contains(other) ==> started_with(started, infohash).contains(other),
        started_with(started, infohash).no_duplicates(),
        started_with(started, infohash).len() <= started.len() + 1,
{
    let all = started_with(started, infohash);
    if !started.contains(infohash) {
        assert(all[started.len() as int] == infohash);
        if started.contains(other) {
            let i = choose|i: int| 0 <= i < started.len() && started[i] == other;
            assert(all[i] == other);
        }
        assert forall|i: int, j: int| 0 <= i < all.len() && 0 <= j < all.len() && i != j implies all[i]
            != all[j] by {
            if i < started.len() && j < started.len() {
                assert(started[i] != started[j]);
            } else if i < started.len() {
                assert(started.contains(started[i]));
            } else {
                assert(started.contains(started[j]));
            }
        }
    }
}

/// A seeder that does not seed says so, and why, of every torrent.
pub proof fn law_noop_never_seeds(
    before: NoopSeeder,
    infohash: Seq<char>,
    torrent_path: Seq<char>,
    data_dir: Seq<char>,
    status: SeedStatusView,
    after: NoopSeeder,
)
    requires
        before.may_seed(infohash, torrent_path, data_dir, status, &after),
    ensures
        !status.seeding,
        status.detail == before.why(),
        status.infohash == infohash,
        status.torrent_path == torrent_path,
        after.recorded() == before.recorded().push(status),
        after.why() == before.why(),
{
}

/// A process is started at the port that follows those in use, for the torrent, the file and the
/// directory that were handed in; what it comes to is the status.
pub proof fn law_carl_started_at_next_port<
    F: Fn(&str, &str, &str, u16) -> Result<(), String>,
>(
    before: CarlSeeder<F>,
    infohash: Seq<char>,
    torrent_path: Seq<char>,
    data_dir: Seq<char>,
    status: SeedStatusView,
    after: CarlSeeder<F>,
)
    requires
        before.may_seed(infohash, torrent_path, data_dir, status, &after),
        before.first_port() + before.started().len() <= 65535,
    ensures
        after.recorded() == before.recorded().push(status),
        after.first_port() == before.first_port(),
        exists|i: &str, t: &str, d: &str, port: u16, out: Result<(), String>|
            {
                &&& #[trigger] before.starter().ensures((i, t, d, port), out)
                &&& i@ == infohash && t@ == torrent_path && d@ == data_dir
                &&& port == before.first_port() + before.started().len()
                &&& status.seeding <==> out is Ok
                &&& out is Ok ==> after.started().contains(infohash)
                &&& out is Err ==> after.started() == before.started()
            },
{
    let port = (before.first_port() + before.started().len()) as u16;
    assert(port_after(before.first_port(), before.started().len()) == Some(port));
    let (i, t, d, out) = choose|i: &str, t: &str, d: &str, out: Result<(), String>|
        {
            &&& i@ == infohash && t@ == torrent_path && d@ == data_dir
            &&& #[trigger] before.starter().ensures((i, t, d, port), out)
            &&& status == carl_status(infohash, torrent_path, port, failure_in(out))
            &&& after.started() == (if out is Ok {
                started_with(before.started(), infohash)
            } else {
                before.started()
            })
        };
    let s = before.started();
    if out is Ok && !s.contains(infohash) {
        assert(s.push(infohash)[s.len() as int] == infohash);
    }
    assert(before.starter().ensures((i, t, d, port), out));
}

} // verus!
