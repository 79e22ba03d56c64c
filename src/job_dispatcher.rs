use vstd::prelude::*;

verus! {

/// The file name of a path: its last component, when that is a normal one.
pub uninterp spec fn path_file_name(path: Seq<char>) -> Option<Seq<char>>;

/// Relies on `std::path::Path::file_name`, which returns the final component of
/// a path unless that component is `..` or missing. On a path that came from a
/// `&str` the component is valid UTF-8, so `to_str` keeps it whole.
#[verifier::external_body]
fn file_name(path: &str) -> (r: Option<String>)
    ensures
        r matches Some(s) ==> path_file_name(path@) == Some(s@),
        r is None ==> path_file_name(path@) is None,
{
    match std::path::Path::new(path).file_name() {
        Some(name) => name.to_str().map(String::from),
        None => None,
    }
}

pub open spec fn pcap_suffix() -> Seq<char> {
    seq!['.', 'p', 'c', 'a', 'p']
}

/// A file name whose extension is exactly `pcap`: it ends in `.pcap`, and that
/// dot does not start the name.
pub open spec fn is_pcap_name(name: Seq<char>) -> bool {
    name.len() > pcap_suffix().len() && name.subrange(
        name.len() - pcap_suffix().len(),
        name.len() as int,
    ) == pcap_suffix()
}

pub open spec fn is_pcap_path(path: Seq<char>) -> bool {
    path_file_name(path) matches Some(name) && is_pcap_name(name)
}

/// Where the report on the capture file `name` goes.
pub open spec fn output_path(output_dir: Seq<char>, name: Seq<char>) -> Seq<char> {
    output_dir + "/"@ + name + ".json"@
}

/// Whether a file name has exactly the extension `pcap`.
pub fn is_pcap_file_name(name: &str) -> (r: bool)
    ensures
        r == is_pcap_name(name@),
{
    let len = name.unicode_len();
    if len <= 5 {
        return false;
    }
    let start = len - 5;
    let r = name.get_char(start) == '.' && name.get_char(start + 1) == 'p' && name.get_char(
        start + 2,
    ) == 'c' && name.get_char(start + 3) == 'a' && name.get_char(start + 4) == 'p';
    proof {
        let tail = name@.subrange(start as int, len as int);
        if r {
            assert(tail =~= pcap_suffix());
        } else if tail == pcap_suffix() {
            assert(tail[0] == '.' && tail[1] == 'p' && tail[2] == 'c' && tail[3] == 'a' && tail[4]
                == 'p');
        }
    }
    r
}

/// Whether the extension of `path` is exactly `pcap`.
pub fn has_pcap_extension(path: &str) -> (r: bool)
    ensures
        r == is_pcap_path(path@),
{
    match file_name(path) {
        Some(name) => is_pcap_file_name(name.as_str()),
        None => false,
    }
}

/// The path of the report on the capture file named `file_name`.
pub fn report_path(output_dir: &str, file_name: &str) -> (r: String)
    ensures
        r@ == output_path(output_dir@, file_name@),
{
    let mut output = String::from_str(output_dir);
    output.append("/");
    output.append(file_name);
    output.append(".json");
    output
}

/// The input path, and the path of its report under `output_dir`; `None` when
/// the path has no file name.
pub fn path_builder(pcap_path: &str, output_dir: &str) -> (r: Option<(String, String)>)
    ensures
        r is None <==> path_file_name(pcap_path@) is None,
        r matches Some((input, output)) ==> input@ == pcap_path@ && output@ == output_path(
            output_dir@,
            path_file_name(pcap_path@)->0,
        ),
{
    match file_name(pcap_path) {
        Some(name) => {
            let input = String::from_str(pcap_path);
            let output = report_path(output_dir, name.as_str());
            Some((input, output))
        },
        None => None,
    }
}

/// A capture file to process, and the worker it is handed to.
pub struct Job {
    pub worker: usize,
    pub input: String,
    pub output: String,
}

impl Job {
    pub open spec fn model(&self) -> (nat, Seq<char>, Seq<char>) {
        (self.worker as nat, self.input@, self.output@)
    }
}

/// The jobs that the paths `paths`, received in this order, give rise to: one
/// per distinct `.pcap` path, at its first arrival, handed to the workers in
/// turn.
pub open spec fn jobs_for(paths: Seq<Seq<char>>, workers: nat, output_dir: Seq<char>) -> Seq<
    (nat, Seq<char>, Seq<char>),
>
    decreases paths.len(),
{
    if paths.len() == 0 {
        Seq::empty()
    } else {
        let earlier = paths.drop_last();
        let p = paths.last();
        let jobs = jobs_for(earlier, workers, output_dir);
        if is_pcap_path(p) && !earlier.contains(p) {
            jobs.push(
                (
                    jobs.len() % workers,
                    p,
                    output_path(output_dir, path_file_name(p)->0),
                ),
            )
        } else {
            jobs
        }
    }
}

/// How many of `jobs` are for the input `p`.
pub open spec fn jobs_with_input(jobs: Seq<(nat, Seq<char>, Seq<char>)>, p: Seq<char>) -> nat
    decreases jobs.len(),
{
    if jobs.len() == 0 {
        0
    } else {
        jobs_with_input(jobs.drop_last(), p) + if jobs.last().1 == p {
            1nat
        } else {
            0nat
        }
    }
}

/// Hands each new `.pcap` path, once, to one of `workers` workers in turn.
pub struct Dispatcher {
    seen: Vec<String>,
    next_worker: usize,
    workers: usize,
    output_dir: String,
    history: Ghost<Seq<Seq<char>>>,
}

impl Dispatcher {
    /// Every path received so far, in order.
    pub closed spec fn history(&self) -> Seq<Seq<char>> {
        self.history@
    }

    pub closed spec fn workers(&self) -> nat {
        self.workers as nat
    }

    pub closed spec fn output_dir(&self) -> Seq<char> {
        self.output_dir@
    }

    /// The jobs handed out so far.
    pub open spec fn jobs(&self) -> Seq<(nat, Seq<char>, Seq<char>)> {
        jobs_for(self.history(), self.workers(), self.output_dir())
    }

    pub closed spec fn wf(&self) -> bool {
        &&& self.workers > 0
        &&& self.next_worker == self.jobs().len() % self.workers()
        &&& forall|i: int|
            0 <= i < self.seen.len() ==> self.history@.contains(#[trigger] self.seen@[i]@)
        &&& forall|p: Seq<char>| #[trigger]
            self.history@.contains(p) && is_pcap_path(p) ==> exists|i: int|
                0 <= i < self.seen.len() && (#[trigger] self.seen@[i])@ == p
    }

    pub fn new(output_dir: String, workers: usize) -> (d: Self)
        requires
            workers > 0,
        ensures
            d.wf(),
            d.history() == Seq::<Seq<char>>::empty(),
            d.workers() == workers,
            d.output_dir() == output_dir@,
    {
        proof {
            vstd::arithmetic::div_mod::lemma_small_mod(0, workers as nat);
        }
        Dispatcher {
            seen: Vec::new(),
            next_worker: 0,
            workers,
            output_dir,
            history: Ghost(Seq::empty()),
        }
    }

    fn was_seen(&self, path: &String) -> (r: bool)
        ensures
            r == exists|i: int| 0 <= i < self.seen.len() && (#[trigger] self.seen@[i])@ == path@,
    {
        let mut i: usize = 0;
        while i < self.seen.len()
            invariant
                i <= self.seen.len(),
                forall|j: int| 0 <= j < i ==> (#[trigger] self.seen@[j])@ != path@,
            decreases self.seen.len() - i,
        {
            if self.seen[i] == *path {
                return true;
            }
            i = i + 1;
        }
        false
    }

    /// Receives one path from the watcher; returns the job it gives rise to, if
    /// it is a `.pcap` path not received before.
    pub fn dispatch(&mut self, path: String) -> (r: Option<Job>)
        requires
            old(self).wf(),
        ensures
            final(self).wf(),
            final(self).history() == old(self).history().push(path@),
            final(self).workers() == old(self).workers(),
            final(self).output_dir() == old(self).output_dir(),
            r is Some <==> is_pcap_path(path@) && !old(self).history().contains(path@),
            r matches Some(job) ==> final(self).jobs() == old(self).jobs().push(job.model()),
            r is None ==> final(self).jobs() == old(self).jobs(),
    {
        let ghost old_history = self.history@;
        let ghost p = path@;
        let ghost new_history = old_history.push(p);
        assert(new_history.drop_last() =~= old_history);
        assert(new_history.contains(p)) by {
            assert(new_history[old_history.len() as int] == p);
        }
        let pcap = has_pcap_extension(path.as_str());
        let seen = self.was_seen(&path);
        proof {
            if seen {
                let i = choose|i: int| 0 <= i < self.seen.len() && (#[trigger] self.seen@[i])@ == p;
                assert(old_history.contains(self.seen@[i]@));
            }
            if pcap && old_history.contains(p) {
                assert(old(self).history@.contains(p) && is_pcap_path(p));
                assert(seen);
            }
        }
        self.history = Ghost(new_history);
        if !pcap || seen {
            proof {
                assert forall|i: int| 0 <= i < self.seen.len() implies new_history.contains(
                    #[trigger] self.seen@[i]@,
                ) by {
                    let k = choose|k: int| 0 <= k < old_history.len() && old_history[k] == self.seen@[i]@;
                    assert(new_history[k] == old_history[k]);
                }
                assert forall|q: Seq<char>| #[trigger]
                    new_history.contains(q) && is_pcap_path(q) implies exists|i: int|
                    0 <= i < self.seen.len() && (#[trigger] self.seen@[i])@ == q by {
                    if q != p {
                        let k = choose|k: int| 0 <= k < new_history.len() && new_history[k] == q;
                        assert(old_history[k] == q);
                        assert(old(self).history@.contains(q));
                        let i = choose|i: int|
                            0 <= i < self.seen.len() && (#[trigger] self.seen@[i])@ == q;
                        assert(self.seen@[i]@ == q);
                    } else {
                        assert(seen);
                        let i = choose|i: int|
                            0 <= i < self.seen.len() && (#[trigger] self.seen@[i])@ == p;
                        assert(self.seen@[i]@ == q);
                    }
                }
            }
            return None;
        }
        let ghost old_seen = self.seen@;
        let worker = self.next_worker;
        let built = path_builder(path.as_str(), self.output_dir.as_str());
        let (input, output) = match built {
            Some(pair) => pair,
            None => {
                proof {
                    assert(false);
                }
                return None;
            },
        };
        self.seen.push(path);
        self.next_worker = if worker + 1 == self.workers {
            0
        } else {
            worker + 1
        };
        proof {
            let w = self.workers as int;
            let jobs_len = jobs_for(old_history, self.workers as nat, self.output_dir@).len();
            vstd::arithmetic::div_mod::lemma_mod_bound(jobs_len as int, w);
            if w > 1 {
                vstd::arithmetic::div_mod::lemma_add_mod_noop(jobs_len as int, 1, w);
                vstd::arithmetic::div_mod::lemma_small_mod(1, w as nat);
                if worker + 1 < w {
                    vstd::arithmetic::div_mod::lemma_small_mod((worker + 1) as nat, w as nat);
                } else {
                    vstd::arithmetic::div_mod::lemma_mod_self_0(w);
                }
            }
            assert forall|i: int| 0 <= i < self.seen.len() implies new_history.contains(
                #[trigger] self.seen@[i]@,
            ) by {
                if i < old_seen.len() {
                    assert(self.seen@[i] == old_seen[i]);
                    let k = choose|k: int| 0 <= k < old_history.len() && old_history[k] == self.seen@[i]@;
                    assert(new_history[k] == old_history[k]);
                }
            }
            assert forall|q: Seq<char>| #[trigger]
                new_history.contains(q) && is_pcap_path(q) implies exists|i: int|
                0 <= i < self.seen.len() && (#[trigger] self.seen@[i])@ == q by {
                if q != p {
                    let k = choose|k: int| 0 <= k < new_history.len() && new_history[k] == q;
                    assert(old_history[k] == q);
                    assert(old(self).history@.contains(q));
                    let i = choose|i: int| 0 <= i < old_seen.len() && (#[trigger] old_seen[i])@ == q;
                    assert(self.seen@[i] == old_seen[i]);
                } else {
                    assert(self.seen@[old_seen.len() as int]@ == p);
                }
            }
        }
        Some(Job { worker, input, output })
    }
}

/// Each distinct `.pcap` path among those received is in exactly one job;
/// no other path is in any; the `i`-th job goes to worker `i mod workers`.
pub proof fn lemma_each_pcap_path_dispatched_once(
    paths: Seq<Seq<char>>,
    workers: nat,
    output_dir: Seq<char>,
    p: Seq<char>,
)
    requires
        workers > 0,
    ensures
        jobs_with_input(jobs_for(paths, workers, output_dir), p) == if is_pcap_path(p)
            && paths.contains(p) {
            1nat
        } else {
            0nat
        },
        forall|i: int|
            0 <= i < jobs_for(paths, workers, output_dir).len() ==> (#[trigger] jobs_for(
                paths,
                workers,
                output_dir,
            )[i]).0 == i % (workers as int),
    decreases paths.len(),
{
    if paths.len() > 0 {
        let earlier = paths.drop_last();
        let q = paths.last();
        lemma_each_pcap_path_dispatched_once(earlier, workers, output_dir, p);
        let jobs = jobs_for(earlier, workers, output_dir);
        let all = jobs_for(paths, workers, output_dir);
        if is_pcap_path(q) && !earlier.contains(q) {
            assert(all.drop_last() =~= jobs);
        }
        if earlier.contains(p) {
            let k = choose|k: int| 0 <= k < earlier.len() && earlier[k] == p;
            assert(paths[k] == p);
        }
        if paths.contains(p) && p != q {
            let k = choose|k: int| 0 <= k < paths.len() && paths[k] == p;
            assert(earlier[k] == p);
        }
        assert(paths[paths.len() - 1] == q);
    }
}

} // verus!
