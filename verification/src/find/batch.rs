//! The batching of `-exec command {} +`: files are gathered per command
//! (and directory, for `-execdir`) until the command line would grow past
//! the system's limit. The library decides when a batch is run and what
//! its command line is; running it is left to the caller, who reports back
//! whether it succeeded.
use vstd::prelude::*;
use crate::text::{chars_of, str_eq};
use crate::find::expression::strings_view;

verus! {

/// The UTF-16 length of a text.
pub open spec fn utf16_len(s: Seq<char>) -> nat
    decreases s.len(),
{
    if s.len() == 0 {
        0
    } else {
        utf16_len(s.drop_last()) + if (s.last() as int) > 0xFFFF { 2nat } else { 1nat }
    }
}

/// What one argument takes of the command line: its UTF-16 length, a
/// separating space and a pair of quotes.
pub open spec fn arg_len(s: Seq<char>) -> nat {
    utf16_len(s) + 3
}

/// What the arguments take of the command line.
pub open spec fn args_len(v: Seq<Seq<char>>) -> nat
    decreases v.len(),
{
    if v.len() == 0 {
        0
    } else {
        args_len(v.drop_last()) + arg_len(v.last())
    }
}

/// What one argument takes of the command line.
pub fn cmdline_len_of(s: &str) -> (r: usize)
    requires
        arg_len(s@) <= usize::MAX,
    ensures
        r == arg_len(s@),
{
    let v = chars_of(s);
    let mut n: usize = 0;
    let mut k: usize = 0;
    proof {
        assert(v@.take(0) =~= Seq::<char>::empty());
    }
    while k < v.len()
        invariant
            k <= v.len(),
            v@ == s@,
            n == utf16_len(v@.take(k as int)),
            arg_len(s@) <= usize::MAX,
        decreases v.len() - k,
    {
        proof {
            assert(v@.take(k + 1).drop_last() =~= v@.take(k as int));
            lemma_utf16_prefix(v@, k + 1);
        }
        let c = v[k];
        n = n + if c > '\u{FFFF}' { 2 } else { 1 };
        k += 1;
    }
    proof {
        assert(v@.take(v.len() as int) =~= v@);
    }
    n + 3
}

/// A prefix takes no more than the whole.
pub proof fn lemma_utf16_prefix(s: Seq<char>, k: int)
    requires
        0 <= k <= s.len(),
    ensures
        utf16_len(s.take(k)) <= utf16_len(s),
    decreases s.len(),
{
    if k < s.len() {
        assert(s.drop_last().take(k) =~= s.take(k));
        lemma_utf16_prefix(s.drop_last(), k);
    } else {
        assert(s.take(k) =~= s);
    }
}

/// What the arguments take of the command line.
pub fn template_len(template: &[String]) -> (r: usize)
    requires
        args_len(strings_view(template@)) <= usize::MAX,
    ensures
        r == args_len(strings_view(template@)),
{
    let ghost sv = strings_view(template@);
    let mut n: usize = 0;
    let mut k: usize = 0;
    proof {
        assert(sv.take(0) =~= Seq::<Seq<char>>::empty());
    }
    while k < template.len()
        invariant
            k <= template.len(),
            sv == strings_view(template@),
            n == args_len(sv.take(k as int)),
            args_len(sv) <= usize::MAX,
        decreases template.len() - k,
    {
        proof {
            assert(sv.take(k + 1).drop_last() =~= sv.take(k as int));
            lemma_args_prefix(sv, k + 1);
            assert(sv[k as int] == template@[k as int]@);
        }
        n = n + cmdline_len_of(template[k].as_str());
        k += 1;
    }
    proof {
        assert(sv.take(template.len() as int) =~= sv);
    }
    n
}

/// A prefix of the arguments takes no more than all of them.
pub proof fn lemma_args_prefix(v: Seq<Seq<char>>, k: int)
    requires
        0 <= k <= v.len(),
    ensures
        args_len(v.take(k)) <= args_len(v),
    decreases v.len(),
{
    if k < v.len() {
        assert(v.drop_last().take(k) =~= v.take(k));
        lemma_args_prefix(v.drop_last(), k);
    } else {
        assert(v.take(k) =~= v);
    }
}

/// The files gathered for one command (and directory).
#[derive(Debug, Clone)]
pub struct BatchEntry {
    pub template: Vec<String>,
    pub files: Vec<String>,
    pub dir: Option<String>,
    pub template_cmdline_len: usize,
    pub files_cmdline_len: usize,
}

/// A batch as values.
pub struct EntryView {
    pub template: Seq<Seq<char>>,
    pub files: Seq<Seq<char>>,
    pub dir: Option<Seq<char>>,
    pub template_len: nat,
    pub files_len: nat,
}

pub open spec fn opt_view(o: Option<String>) -> Option<Seq<char>> {
    match o {
        Some(s) => Some(s@),
        None => None,
    }
}

impl View for BatchEntry {
    type V = EntryView;

    open spec fn view(&self) -> EntryView {
        EntryView {
            template: strings_view(self.template@),
            files: strings_view(self.files@),
            dir: opt_view(self.dir),
            template_len: self.template_cmdline_len as nat,
            files_len: self.files_cmdline_len as nat,
        }
    }
}

/// A command line to run: its words, and the directory to run it in.
#[derive(Debug, Clone)]
pub struct BatchRun {
    pub command: Vec<String>,
    pub dir: Option<String>,
}

/// The batches of `-exec ... +` not yet run.
#[derive(Debug)]
pub struct BatchExecutor {
    entries: Vec<BatchEntry>,
    cmdline_limit: usize,
    failed: bool,
}

pub open spec fn entries_view(v: Seq<BatchEntry>) -> Seq<EntryView> {
    v.map_values(|e: BatchEntry| e@)
}

/// The state of the batches as values.
pub struct BatchesView {
    pub entries: Seq<EntryView>,
    pub limit: nat,
    pub failed: bool,
}

impl View for BatchExecutor {
    type V = BatchesView;

    closed spec fn view(&self) -> BatchesView {
        BatchesView { entries: entries_view(self.entries@), limit: self.cmdline_limit as nat, failed: self.failed }
    }
}

/// Whether an entry is the one for `template` in `dir`.
pub open spec fn same_key(e: EntryView, template: Seq<Seq<char>>, dir: Option<Seq<char>>) -> bool {
    e.template == template && e.dir == dir
}

/// The entry for `template` in `dir`, if any.
pub open spec fn entry_index(entries: Seq<EntryView>, template: Seq<Seq<char>>, dir: Option<Seq<char>>) -> Option<int> {
    if exists|i: int| 0 <= i < entries.len() && same_key(#[trigger] entries[i], template, dir) {
        Some(choose|i: int| 0 <= i < entries.len() && same_key(#[trigger] entries[i], template, dir))
    } else {
        None
    }
}

/// Well-formed batches: one entry per command and directory, each
/// knowing what its template and files take of the command line.
pub open spec fn batches_wf(b: BatchesView) -> bool {
    &&& forall|i: int, j: int| 0 <= i < j < b.entries.len() ==> !same_key(#[trigger] b.entries[i], (#[trigger] b.entries[j]).template, b.entries[j].dir)
    &&& forall|i: int| 0 <= i < b.entries.len() ==> (#[trigger] b.entries[i]).template_len == args_len(b.entries[i].template)
        && b.entries[i].files_len == args_len(b.entries[i].files)
}

/// The words of a batch's command line: the template with `{}` replaced
/// by the files (or the files after it when it has no `{}`).
pub open spec fn expand_template(template: Seq<Seq<char>>, files: Seq<Seq<char>>) -> Seq<Seq<char>>
    decreases template.len(),
{
    if template.len() == 0 {
        Seq::empty()
    } else {
        expand_template(template.drop_last(), files) + if template.last() == "{}"@ { files } else { seq![template.last()] }
    }
}

pub open spec fn batch_command(template: Seq<Seq<char>>, files: Seq<Seq<char>>) -> Seq<Seq<char>> {
    if template.contains("{}"@) {
        expand_template(template, files)
    } else {
        template + files
    }
}

impl BatchExecutor {
    /// No batches yet, with the command line limit of the system.
    pub fn new(cmdline_limit: usize) -> (r: Self)
        ensures
            r@.entries == Seq::<EntryView>::empty(),
            r@.limit == cmdline_limit,
            !r@.failed,
            batches_wf(r@),
    {
        let r = BatchExecutor { entries: Vec::new(), cmdline_limit, failed: false };
        proof {
            assert(entries_view(r.entries@) =~= Seq::<EntryView>::empty());
        }
        r
    }

    /// Whether a batch run so far failed.
    pub fn had_failure(&self) -> (r: bool)
        ensures
            r == self@.failed,
    {
        self.failed
    }

    /// Records how a batch that was run ended.
    pub fn note_outcome(&mut self, success: bool)
        ensures
            final(self)@ == (BatchesView { failed: old(self)@.failed || !success, ..old(self)@ }),
    {
        if !success {
            self.failed = true;
        }
    }
}

/// The command line that runs a batch, when it has files and words.
pub open spec fn run_of(e: EntryView) -> Option<(Seq<Seq<char>>, Option<Seq<char>>)> {
    if e.files.len() == 0 || batch_command(e.template, e.files).len() == 0 {
        None
    } else {
        Some((batch_command(e.template, e.files), e.dir))
    }
}

pub open spec fn run_view(r: BatchRun) -> (Seq<Seq<char>>, Option<Seq<char>>) {
    (strings_view(r.command@), opt_view(r.dir))
}

/// The command lines that run the batches, in order.
pub open spec fn runs_of(entries: Seq<EntryView>) -> Seq<(Seq<Seq<char>>, Option<Seq<char>>)>
    decreases entries.len(),
{
    if entries.len() == 0 {
        Seq::empty()
    } else {
        runs_of(entries.drop_last()) + match run_of(entries.last()) {
            Some(r) => seq![r],
            None => Seq::empty(),
        }
    }
}

/// A batch holding one file.
pub open spec fn fresh_entry(template: Seq<Seq<char>>, file: Seq<char>, dir: Option<Seq<char>>) -> EntryView {
    EntryView { template: template, files: seq![file], dir: dir, template_len: args_len(template), files_len: arg_len(file) }
}

/// What adding `file` to the batch of `template` in `dir` does: a new
/// batch when there is none; when the file would take the command line to
/// the limit, the batch is run (its command line is returned) and a new
/// one holds the file; else the file joins the batch.
pub open spec fn add_spec(b: BatchesView, template: Seq<Seq<char>>, file: Seq<char>, dir: Option<Seq<char>>)
    -> (Seq<EntryView>, Option<(Seq<Seq<char>>, Option<Seq<char>>)>) {
    match entry_index(b.entries, template, dir) {
        None => (b.entries.push(fresh_entry(template, file, dir)), None),
        Some(i) => {
            let e = b.entries[i];
            if e.files.len() > 0 && e.template_len + e.files_len + arg_len(file) >= b.limit {
                (b.entries.update(i, fresh_entry(template, file, dir)), run_of(e))
            } else {
                (b.entries.update(i, EntryView { files: e.files.push(file), files_len: e.files_len + arg_len(file), ..e }), None)
            }
        },
    }
}

/// Whether the sums of command line lengths that `add` makes fit.
pub open spec fn add_fits(b: BatchesView, template: Seq<Seq<char>>, file: Seq<char>, dir: Option<Seq<char>>) -> bool {
    args_len(template) + arg_len(file) + match entry_index(b.entries, template, dir) {
        Some(i) => b.entries[i].files_len as int,
        None => 0int,
    } <= usize::MAX
}

pub proof fn lemma_entry_index_found(entries: Seq<EntryView>, template: Seq<Seq<char>>, dir: Option<Seq<char>>)
    ensures
        match entry_index(entries, template, dir) {
            Some(i) => 0 <= i < entries.len() && same_key(entries[i], template, dir),
            None => forall|j: int| 0 <= j < entries.len() ==> !same_key(#[trigger] entries[j], template, dir),
        },
{
}

pub proof fn lemma_entry_index(b: BatchesView, i: int, template: Seq<Seq<char>>, dir: Option<Seq<char>>)
    requires
        batches_wf(b),
        0 <= i < b.entries.len(),
        same_key(b.entries[i], template, dir),
    ensures
        entry_index(b.entries, template, dir) == Some(i),
{
    let j = choose|j: int| 0 <= j < b.entries.len() && same_key(#[trigger] b.entries[j], template, dir);
    assert(0 <= j < b.entries.len() && same_key(b.entries[j], template, dir));
    if j < i {
        assert(!same_key(b.entries[j], b.entries[i].template, b.entries[i].dir));
    } else if i < j {
        assert(!same_key(b.entries[i], b.entries[j].template, b.entries[j].dir));
    }
}

fn strings_eq(a: &[String], b: &[String]) -> (r: bool)
    ensures
        r == (strings_view(a@) == strings_view(b@)),
{
    if a.len() != b.len() {
        proof {
            assert(strings_view(a@).len() != strings_view(b@).len());
        }
        return false;
    }
    let mut k: usize = 0;
    while k < a.len()
        invariant
            k <= a.len() == b.len(),
            forall|j: int| 0 <= j < k ==> a@[j]@ == b@[j]@,
        decreases a.len() - k,
    {
        if !str_eq(a[k].as_str(), b[k].as_str()) {
            proof {
                assert(strings_view(a@)[k as int] != strings_view(b@)[k as int]);
            }
            return false;
        }
        k += 1;
    }
    proof {
        assert(strings_view(a@) =~= strings_view(b@));
    }
    true
}

fn opt_eq(a: &Option<String>, b: &Option<String>) -> (r: bool)
    ensures
        r == (opt_view(*a) == opt_view(*b)),
{
    match (a, b) {
        (Some(x), Some(y)) => str_eq(x.as_str(), y.as_str()),
        (None, None) => true,
        _ => false,
    }
}

fn copy_strings(v: &[String]) -> (r: Vec<String>)
    ensures
        strings_view(r@) == strings_view(v@),
{
    let mut r: Vec<String> = Vec::new();
    let mut k: usize = 0;
    while k < v.len()
        invariant
            k <= v.len(),
            strings_view(r@) == strings_view(v@).take(k as int),
        decreases v.len() - k,
    {
        let ghost before = strings_view(r@);
        let x = v[k].clone();
        r.push(x);
        proof {
            assert(strings_view(r@) =~= before.push(x@));
            assert(strings_view(v@).take(k + 1) =~= strings_view(v@).take(k as int).push(v@[k as int]@));
        }
        k += 1;
    }
    proof {
        assert(strings_view(v@).take(v.len() as int) =~= strings_view(v@));
    }
    r
}

fn copy_opt(o: &Option<String>) -> (r: Option<String>)
    ensures
        opt_view(r) == opt_view(*o),
{
    match o {
        Some(s) => Some(s.clone()),
        None => None,
    }
}

/// The words of a batch's command line.
fn command_of(template: &Vec<String>, files: &Vec<String>) -> (r: Vec<String>)
    ensures
        strings_view(r@) == batch_command(strings_view(template@), strings_view(files@)),
{
    let ghost st = strings_view(template@);
    let ghost sf = strings_view(files@);
    let mut parts: Vec<String> = Vec::new();
    let mut found = false;
    let mut k: usize = 0;
    proof {
        assert(st.take(0) =~= Seq::<Seq<char>>::empty());
    }
    while k < template.len()
        invariant
            k <= template.len(),
            st == strings_view(template@),
            sf == strings_view(files@),
            strings_view(parts@) == expand_template(st.take(k as int), sf),
            found == st.take(k as int).contains("{}"@),
        decreases template.len() - k,
    {
        let ghost before = strings_view(parts@);
        let is_slot = crate::text::chars_eq_str(&chars_of(template[k].as_str()), "{}");
        proof {
            assert(st[k as int] == template@[k as int]@);
            assert(st.take(k + 1).drop_last() =~= st.take(k as int));
            assert(st.take(k + 1).last() == st[k as int]);
        }
        if is_slot {
            found = true;
            let mut more = copy_strings(files.as_slice());
            parts.append(&mut more);
            proof {
                assert(strings_view(parts@) =~= before + sf);
            }
        } else {
            let x = template[k].clone();
            parts.push(x);
            proof {
                assert(strings_view(parts@) =~= before + seq![st[k as int]]);
            }
        }
        proof {
            if st.take(k + 1).contains("{}"@) && !is_slot {
                let j = choose|j: int| 0 <= j < st.take(k + 1).len() && #[trigger] st.take(k + 1)[j] == "{}"@;
                assert(st.take(k as int)[j] == "{}"@);
            }
            if st.take(k as int).contains("{}"@) {
                let j = choose|j: int| 0 <= j < st.take(k as int).len() && #[trigger] st.take(k as int)[j] == "{}"@;
                assert(st.take(k + 1)[j] == "{}"@);
            }
            if is_slot {
                assert(st.take(k + 1)[k as int] == "{}"@);
            }
        }
        k += 1;
    }
    proof {
        assert(st.take(template.len() as int) =~= st);
    }
    if !found {
        let mut more = copy_strings(files.as_slice());
        let mut r = copy_strings(template.as_slice());
        let ghost before = strings_view(r@);
        r.append(&mut more);
        proof {
            assert(strings_view(r@) =~= before + sf);
        }
        return r;
    }
    parts
}

/// The command line that runs a batch, when it has files and words.
fn run_of_exec(e: &BatchEntry) -> (r: Option<BatchRun>)
    ensures
        match run_of(e@) {
            Some(x) => r is Some && run_view(r->Some_0) == x,
            None => r is None,
        },
{
    if e.files.len() == 0 {
        return None;
    }
    let command = command_of(&e.template, &e.files);
    if command.len() == 0 {
        return None;
    }
    Some(BatchRun { command, dir: copy_opt(&e.dir) })
}

impl BatchExecutor {
    /// The index of the batch of `template` in `dir`, if any.
    fn find_entry(&self, template: &[String], dir: &Option<String>) -> (r: Option<usize>)
        requires
            batches_wf(self@),
        ensures
            match entry_index(self@.entries, strings_view(template@), opt_view(*dir)) {
                Some(i) => r == Some(i as usize),
                None => r is None,
            },
    {
        let ghost ev = self@.entries;
        let mut k: usize = 0;
        while k < self.entries.len()
            invariant
                k <= self.entries.len(),
                ev == self@.entries,
                ev == entries_view(self.entries@),
                batches_wf(self@),
                forall|j: int| 0 <= j < k ==> !same_key(#[trigger] ev[j], strings_view(template@), opt_view(*dir)),
            decreases self.entries.len() - k,
        {
            let e = &self.entries[k];
            proof {
                assert(ev[k as int] == e@);
            }
            if strings_eq(e.template.as_slice(), template) && opt_eq(&e.dir, dir) {
                proof {
                    lemma_entry_index(self@, k as int, strings_view(template@), opt_view(*dir));
                }
                return Some(k);
            }
            k += 1;
        }
        None
    }

    /// Adds `file` to the batch of `template` (in `dir` for `-execdir`):
    /// the command line of a batch that must be run now, if any, as
    /// `add_spec` says.
    pub fn add(&mut self, command_template: &[String], file: &str, dir: Option<&str>) -> (r: Option<BatchRun>)
        requires
            batches_wf(old(self)@),
            add_fits(old(self)@, strings_view(command_template@), file@, match dir {
                Some(d) => Some(d@),
                None => None,
            }),
        ensures
            batches_wf(final(self)@),
            final(self)@.limit == old(self)@.limit,
            final(self)@.failed == old(self)@.failed,
            ({
                let want = add_spec(old(self)@, strings_view(command_template@), file@, match dir {
                    Some(d) => Some(d@),
                    None => None,
                });
                &&& final(self)@.entries == want.0
                &&& match want.1 {
                    Some(x) => r is Some && run_view(r->Some_0) == x,
                    None => r is None,
                }
            }),
    {
        let ghost t = strings_view(command_template@);
        let ghost dv = match dir {
            Some(d) => Some(d@),
            None => None,
        };
        let ghost b0 = self@;
        let dir_s: Option<String> = match dir {
            Some(d) => Some(String::from_str(d)),
            None => None,
        };
        assert(opt_view(dir_s) == dv);
        let idx = self.find_entry(command_template, &dir_s);
        assert(b0.entries.len() == self.entries.len());
        proof {
            lemma_entry_index_found(b0.entries, t, dv);
            lemma_args_fit(b0, t, file@, dv);
        }
        let tl = template_len(command_template);
        let fl = cmdline_len_of(file);
        let mut files: Vec<String> = Vec::new();
        files.push(String::from_str(file));
        let fresh = BatchEntry {
            template: copy_strings(command_template),
            files: files,
            dir: dir_s,
            template_cmdline_len: tl,
            files_cmdline_len: fl,
        };
        proof {
            assert(strings_view(fresh.files@) =~= seq![file@]);
            assert(args_len(seq![file@]) == arg_len(file@)) by {
                assert(seq![file@].drop_last() =~= Seq::<Seq<char>>::empty());
                reveal_with_fuel(args_len, 2);
            }
            assert(fresh@ == fresh_entry(t, file@, dv));
        }
        match idx {
            None => {
                self.entries.push(fresh);
                proof {
                    assert(entries_view(self.entries@) =~= b0.entries.push(fresh@));
                    assert forall|i: int, j: int| 0 <= i < j < self@.entries.len() implies
                        !same_key(#[trigger] self@.entries[i], (#[trigger] self@.entries[j]).template, self@.entries[j].dir) by {
                        if j == b0.entries.len() {
                            assert(!same_key(b0.entries[i], t, dv));
                        }
                    }
                }
                None
            },
            Some(i) => {
                let e = self.entries.remove(i);
                proof {
                    assert(e@ == b0.entries[i as int]);
                    lemma_entry_index_found(b0.entries, t, dv);
                    let ei = entry_index(b0.entries, t, dv);
                    assert(ei is Some);
                    assert(ei->Some_0 == i as int);
                    assert(same_key(b0.entries[i as int], t, dv));
                    assert(b0.entries[i as int].template_len == args_len(b0.entries[i as int].template));
                }
                let projected = e.template_cmdline_len + e.files_cmdline_len + fl;
                if e.files.len() > 0 && projected >= self.cmdline_limit {
                    let run = run_of_exec(&e);
                    self.entries.insert(i, fresh);
                    proof {
                        assert(entries_view(self.entries@) =~= b0.entries.update(i as int, fresh@));
                        lemma_wf_update(b0, i as int, fresh@);
                    }
                    run
                } else {
                    let mut e = e;
                    let ghost ev0 = e@;
                    let x = String::from_str(file);
                    e.files.push(x);
                    e.files_cmdline_len = e.files_cmdline_len + fl;
                    proof {
                        assert(strings_view(e.files@) =~= ev0.files.push(file@));
                        assert(strings_view(e.files@).drop_last() =~= ev0.files);
                        assert(e@ == EntryView { files: ev0.files.push(file@), files_len: ev0.files_len + arg_len(file@), ..ev0 });
                    }
                    self.entries.insert(i, e);
                    proof {
                        assert(entries_view(self.entries@) =~= b0.entries.update(i as int, e@));
                        lemma_wf_update(b0, i as int, e@);
                    }
                    None
                }
            },
        }
    }

    /// Takes all batches: the command lines that run them, in order.
    pub fn flush(&mut self) -> (r: Vec<BatchRun>)
        requires
            batches_wf(old(self)@),
        ensures
            final(self)@.entries == Seq::<EntryView>::empty(),
            final(self)@.limit == old(self)@.limit,
            final(self)@.failed == old(self)@.failed,
            batches_wf(final(self)@),
            r@.map_values(|x: BatchRun| run_view(x)) == runs_of(old(self)@.entries),
    {
        let ghost ev = self@.entries;
        let mut runs: Vec<BatchRun> = Vec::new();
        let mut k: usize = 0;
        proof {
            assert(ev.take(0) =~= Seq::<EntryView>::empty());
            assert(runs@.map_values(|x: BatchRun| run_view(x)) =~= runs_of(ev.take(0)));
        }
        while k < self.entries.len()
            invariant
                k <= self.entries.len(),
                ev == self@.entries,
                ev == entries_view(self.entries@),
                runs@.map_values(|x: BatchRun| run_view(x)) == runs_of(ev.take(k as int)),
            decreases self.entries.len() - k,
        {
            let ghost before = runs@.map_values(|x: BatchRun| run_view(x));
            proof {
                assert(ev[k as int] == self.entries@[k as int]@);
                assert(ev.take(k + 1).drop_last() =~= ev.take(k as int));
                assert(ev.take(k + 1).last() == ev[k as int]);
            }
            match run_of_exec(&self.entries[k]) {
                Some(run) => {
                    runs.push(run);
                    proof {
                        assert(runs@.map_values(|x: BatchRun| run_view(x)) =~= before.push(run_view(run)));
                    }
                },
                None => {
                    proof {
                        assert(before + Seq::empty() =~= before);
                    }
                },
            }
            k += 1;
        }
        proof {
            assert(ev.take(self.entries.len() as int) =~= ev);
        }
        self.entries.clear();
        proof {
            assert(entries_view(self.entries@) =~= Seq::<EntryView>::empty());
        }
        runs
    }
}

/// The sums `add` makes fit when `add_fits` holds.
proof fn lemma_args_fit(b: BatchesView, t: Seq<Seq<char>>, f: Seq<char>, d: Option<Seq<char>>)
    requires
        add_fits(b, t, f, d),
    ensures
        args_len(t) <= usize::MAX,
        arg_len(f) <= usize::MAX,
        args_len(t) + arg_len(f) <= usize::MAX,
{
}

/// Replacing a batch by one with the same key keeps the batches
/// well-formed.
proof fn lemma_wf_update(b: BatchesView, i: int, e: EntryView)
    requires
        batches_wf(b),
        0 <= i < b.entries.len(),
        e.template == b.entries[i].template,
        e.dir == b.entries[i].dir,
        e.template_len == args_len(e.template),
        e.files_len == args_len(e.files),
    ensures
        batches_wf(BatchesView { entries: b.entries.update(i, e), ..b }),
{
    let n = b.entries.update(i, e);
    assert forall|x: int, y: int| 0 <= x < y < n.len() implies !same_key(#[trigger] n[x], (#[trigger] n[y]).template, n[y].dir) by {
        assert(!same_key(b.entries[x], b.entries[y].template, b.entries[y].dir));
    }
}

} // verus!

verus! {

/// The command line limit: with the system's `ARG_MAX` (when it reports
/// one above zero) that less 2560 bytes of room for the environment, but
/// at least 4096; without one (and on Windows) 32000.
pub open spec fn cmdline_limit_spec(arg_max: Option<i64>) -> int {
    match arg_max {
        Some(raw) => if raw > 0 {
            let u = (raw as usize) as int;
            let less = if u >= 2560 { u - 2560 } else { 0 };
            if less >= 4096 { less } else { 4096 }
        } else {
            32000
        },
        None => 32000,
    }
}

/// The command line limit for `ARG_MAX` (`None` where the system has
/// none to report, as on Windows).
pub fn cmdline_limit(arg_max: Option<i64>) -> (r: usize)
    ensures
        r == cmdline_limit_spec(arg_max),
{
    match arg_max {
        Some(raw) => if raw > 0 {
            let u = raw as usize;
            let less = u.saturating_sub(2560);
            if less >= 4096 { less } else { 4096 }
        } else {
            32000
        },
        None => 32000,
    }
}

/// One call on the batches.
pub enum BatchOp {
    Add(Seq<Seq<char>>, Seq<char>, Option<Seq<char>>),
    Flush,
    Outcome(bool),
}

/// The batches after one call, as the contracts of `add`, `flush` and
/// `note_outcome` give them.
pub open spec fn op_step(b: BatchesView, op: BatchOp) -> BatchesView {
    match op {
        BatchOp::Add(t, f, d) => BatchesView { entries: add_spec(b, t, f, d).0, ..b },
        BatchOp::Flush => BatchesView { entries: Seq::empty(), ..b },
        BatchOp::Outcome(ok) => BatchesView { failed: b.failed || !ok, ..b },
    }
}

/// The batches after a run of calls.
pub open spec fn run_ops(b: BatchesView, ops: Seq<BatchOp>) -> BatchesView
    decreases ops.len(),
{
    if ops.len() == 0 { b } else { op_step(run_ops(b, ops.drop_last()), ops.last()) }
}

/// Some batch of the run ended in failure.
pub open spec fn some_failure(ops: Seq<BatchOp>) -> bool {
    exists|k: int| 0 <= k < ops.len() && ops[k] == BatchOp::Outcome(false)
}

/// The failure flag: after any run of calls it is set exactly when it was
/// set before or some batch ended in failure; nothing ever clears it.
pub proof fn lemma_failure_sticks(b: BatchesView, ops: Seq<BatchOp>)
    ensures
        run_ops(b, ops).failed == (b.failed || some_failure(ops)),
        run_ops(b, ops).limit == b.limit,
    decreases ops.len(),
{
    if ops.len() > 0 {
        let init = ops.drop_last();
        lemma_failure_sticks(b, init);
        if some_failure(init) {
            let k = choose|k: int| 0 <= k < init.len() && init[k] == BatchOp::Outcome(false);
            assert(ops[k] == BatchOp::Outcome(false));
        }
        if some_failure(ops) {
            let k = choose|k: int| 0 <= k < ops.len() && ops[k] == BatchOp::Outcome(false);
            if k < init.len() {
                assert(init[k] == BatchOp::Outcome(false));
            }
        }
    }
}

/// Adding a file keeps the batches well-formed.
proof fn lemma_add_keeps_wf(b: BatchesView, t: Seq<Seq<char>>, f: Seq<char>, d: Option<Seq<char>>)
    requires
        batches_wf(b),
    ensures
        batches_wf(BatchesView { entries: add_spec(b, t, f, d).0, ..b }),
{
    lemma_entry_index_found(b.entries, t, d);
    assert(args_len(seq![f]) == arg_len(f)) by {
        assert(seq![f].drop_last() =~= Seq::<Seq<char>>::empty());
        assert(seq![f].last() == f);
        assert(args_len(Seq::<Seq<char>>::empty()) == 0);
    }
    match entry_index(b.entries, t, d) {
        None => {
            let n = b.entries.push(fresh_entry(t, f, d));
            assert forall|x: int, y: int| 0 <= x < y < n.len() implies !same_key(#[trigger] n[x], (#[trigger] n[y]).template, n[y].dir) by {
                if y < b.entries.len() {
                    assert(!same_key(b.entries[x], b.entries[y].template, b.entries[y].dir));
                } else {
                    assert(!same_key(b.entries[x], t, d));
                }
            }
            assert forall|i: int| 0 <= i < n.len() implies (#[trigger] n[i]).template_len == args_len(n[i].template)
                && n[i].files_len == args_len(n[i].files) by {
                if i < b.entries.len() {
                    assert(n[i] == b.entries[i]);
                }
            }
        },
        Some(i) => {
            let e = b.entries[i];
            if e.files.len() > 0 && e.template_len + e.files_len + arg_len(f) >= b.limit {
                lemma_wf_update(b, i, fresh_entry(t, f, d));
            } else {
                let ne = EntryView { files: e.files.push(f), files_len: e.files_len + arg_len(f), ..e };
                assert(e.files.push(f).drop_last() =~= e.files);
                lemma_wf_update(b, i, ne);
            }
        },
    }
}

/// What a batch's command line is estimated to take.
pub open spec fn estimate(e: EntryView) -> int {
    (e.template_len + e.files_len) as int
}

/// Every batch of two or more files stays under the limit.
pub open spec fn batches_under(b: BatchesView) -> bool {
    forall|i: int| 0 <= i < b.entries.len() && (#[trigger] b.entries[i]).files.len() >= 2 ==> estimate(b.entries[i]) < b.limit
}

/// Adding a file keeps every batch of two or more files under the limit,
/// and a batch that adding runs is under it too when it holds two or more.
pub proof fn lemma_add_keeps_under(b: BatchesView, t: Seq<Seq<char>>, f: Seq<char>, d: Option<Seq<char>>)
    requires
        batches_wf(b),
        batches_under(b),
    ensures
        batches_under(BatchesView { entries: add_spec(b, t, f, d).0, ..b }),
        match entry_index(b.entries, t, d) {
            Some(i) => add_spec(b, t, f, d).1 is Some && b.entries[i].files.len() >= 2 ==> estimate(b.entries[i]) < b.limit,
            None => true,
        },
{
    lemma_entry_index_found(b.entries, t, d);
    let nb = BatchesView { entries: add_spec(b, t, f, d).0, ..b };
    match entry_index(b.entries, t, d) {
        None => {
            assert forall|i: int| 0 <= i < nb.entries.len() && (#[trigger] nb.entries[i]).files.len() >= 2
                implies estimate(nb.entries[i]) < nb.limit by {
                if i < b.entries.len() {
                    assert(nb.entries[i] == b.entries[i]);
                }
            }
        },
        Some(k) => {
            assert forall|i: int| 0 <= i < nb.entries.len() && (#[trigger] nb.entries[i]).files.len() >= 2
                implies estimate(nb.entries[i]) < nb.limit by {
                if i != k {
                    assert(nb.entries[i] == b.entries[i]);
                }
            }
        },
    }
}

/// Every batch of two or more files stays under the limit after any run
/// of calls that starts from batches that hold it (as new batches do).
pub proof fn lemma_batches_stay_under(b: BatchesView, ops: Seq<BatchOp>)
    requires
        batches_wf(b),
        batches_under(b),
    ensures
        batches_under(run_ops(b, ops)),
        batches_wf(run_ops(b, ops)),
    decreases ops.len(),
{
    if ops.len() > 0 {
        lemma_batches_stay_under(b, ops.drop_last());
        let mid = run_ops(b, ops.drop_last());
        match ops.last() {
            BatchOp::Add(t, f, d) => {
                lemma_add_keeps_under(mid, t, f, d);
                lemma_add_keeps_wf(mid, t, f, d);
            },
            BatchOp::Flush => {},
            BatchOp::Outcome(ok) => {},
        }
    }
}


/// The batches a call launches: the pending batch that `add` runs first,
/// or every pending batch on `flush`.
pub open spec fn launched_by(b: BatchesView, op: BatchOp) -> Seq<EntryView> {
    match op {
        BatchOp::Add(t, f, d) => match entry_index(b.entries, t, d) {
            Some(i) => if add_spec(b, t, f, d).1 is Some { seq![b.entries[i]] } else { Seq::empty() },
            None => Seq::empty(),
        },
        BatchOp::Flush => b.entries,
        BatchOp::Outcome(ok) => Seq::empty(),
    }
}

/// Batches that start empty (as `BatchExecutor::new` makes them).
pub open spec fn fresh_batches(limit: nat) -> BatchesView {
    BatchesView { entries: Seq::empty(), limit, failed: false }
}

/// Every batch of two or more files that any call of a run launches, by
/// `add` or by `flush`, has its estimated command line under the limit.
pub proof fn lemma_launched_under(limit: nat, ops: Seq<BatchOp>)
    ensures
        forall|k: int, j: int|
            #![trigger launched_by(run_ops(fresh_batches(limit), ops.take(k)), ops[k])[j]]
            0 <= k < ops.len() && 0 <= j < launched_by(run_ops(fresh_batches(limit), ops.take(k)), ops[k]).len()
                && launched_by(run_ops(fresh_batches(limit), ops.take(k)), ops[k])[j].files.len() >= 2 ==> estimate(
                launched_by(run_ops(fresh_batches(limit), ops.take(k)), ops[k])[j],
            ) < limit,
{
    let b = fresh_batches(limit);
    assert forall|k: int, j: int|
        0 <= k < ops.len() && 0 <= j < launched_by(run_ops(b, ops.take(k)), ops[k]).len()
            && (#[trigger] launched_by(run_ops(b, ops.take(k)), ops[k])[j]).files.len() >= 2 implies estimate(
        launched_by(run_ops(b, ops.take(k)), ops[k])[j],
    ) < limit by {
        let mid = run_ops(b, ops.take(k));
        lemma_batches_stay_under(b, ops.take(k));
        lemma_failure_sticks(b, ops.take(k));
        match ops[k] {
            BatchOp::Add(t, f, d) => {
                lemma_add_keeps_under(mid, t, f, d);
            },
            BatchOp::Flush => {},
            BatchOp::Outcome(ok) => {},
        }
    }
}

/// From new batches, the failure flag is set after a run of calls exactly
/// when some launched batch ended in failure, and once set it stays set
/// through every later call.
pub proof fn lemma_fresh_failure(limit: nat, ops: Seq<BatchOp>, k1: int, k2: int)
    requires
        0 <= k1 <= k2 <= ops.len(),
    ensures
        run_ops(fresh_batches(limit), ops).failed == some_failure(ops),
        run_ops(fresh_batches(limit), ops.take(k1)).failed ==> run_ops(fresh_batches(limit), ops.take(k2)).failed,
{
    let b = fresh_batches(limit);
    lemma_failure_sticks(b, ops);
    lemma_failure_sticks(b, ops.take(k1));
    lemma_failure_sticks(b, ops.take(k2));
    if some_failure(ops.take(k1)) {
        let k = choose|k: int| 0 <= k < ops.take(k1).len() && ops.take(k1)[k] == BatchOp::Outcome(false);
        assert(ops.take(k2)[k] == BatchOp::Outcome(false));
    }
}

} // verus!
