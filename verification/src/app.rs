//! The monitor's state and how it changes on collector updates and key
//! presses.
use vstd::prelude::*;
use crate::process::{
    filter_processes, is_sorted_by, lemma_sorted_by_is_sorted, lemma_sorted_by_permutes, matching,
    sort_processes, sorted_by,
};
use crate::text::{pop_char, push_char};
use crate::types::{
    CollectorMessage, ContainerInfo, DiskInfo, MemoryInfo, NetworkInfo, ProcessInfo, SortMode,
};

verus! {

/// How many samples of each core the CPU panel keeps.
pub const CPU_HISTORY_LEN: usize = 60;

/// A key press, as far as the monitor tells keys apart.
#[derive(Debug, Clone, Copy, PartialEq, Eq, Structural)]
pub enum Key {
    Char(char),
    Up,
    Down,
    Backspace,
    Other,
}

/// The state of the monitor.
pub struct App {
    /// Per core, the most recent usage samples, oldest first (each the bit
    /// pattern of an `f64` percentage).
    pub cpu_history: Vec<Vec<u64>>,
    pub memory: MemoryInfo,
    /// The process list, in the order of `sort_mode`.
    pub processes: Vec<ProcessInfo>,
    /// The text typed to filter processes by name.
    pub filter: String,
    pub sort_mode: SortMode,
    /// The highlighted row of the shown processes.
    pub selected: usize,
    pub should_quit: bool,
    pub containers: Vec<ContainerInfo>,
    /// Whether a Docker update has arrived yet.
    pub docker_available: bool,
    pub network_stats: Vec<NetworkInfo>,
    pub disks: Vec<DiskInfo>,
}

/// The samples of each core as sequences.
pub open spec fn history_view(h: Seq<Vec<u64>>) -> Seq<Seq<u64>> {
    h.map_values(|v: Vec<u64>| v@)
}

/// A core's history after a new sample: the sample is appended and, when the
/// history then holds more than `CPU_HISTORY_LEN` samples, the oldest is
/// dropped.
pub open spec fn with_sample(h: Seq<u64>, sample: u64) -> Seq<u64> {
    if h.push(sample).len() > CPU_HISTORY_LEN {
        h.push(sample).drop_first()
    } else {
        h.push(sample)
    }
}

/// The CPU history after one sample per core arrives. When the number of
/// cores changed, the history starts afresh.
pub open spec fn history_after(h: Seq<Seq<u64>>, cores: Seq<u64>) -> Seq<Seq<u64>> {
    Seq::new(
        cores.len(),
        |i: int|
            with_sample(
                if h.len() == cores.len() {
                    h[i]
                } else {
                    Seq::empty()
                },
                cores[i],
            ),
    )
}

/// No core keeps more than `CPU_HISTORY_LEN` samples.
pub open spec fn history_bounded(h: Seq<Seq<u64>>) -> bool {
    forall|i: int| 0 <= i < h.len() ==> #[trigger] h[i].len() <= CPU_HISTORY_LEN
}

/// After an update there is one history per core, each ending with that
/// core's new sample; a history that was within the bound stays within it.
pub proof fn lemma_history_after(h: Seq<Seq<u64>>, cores: Seq<u64>)
    ensures
        history_after(h, cores).len() == cores.len(),
        forall|i: int|
            0 <= i < cores.len() ==> #[trigger] history_after(h, cores)[i].last() == cores[i],
        history_bounded(h) ==> history_bounded(history_after(h, cores)),
{
}

impl App {
    /// This state holds the same readings as `other` (the fields that key
    /// presses leave alone).
    pub open spec fn same_readings(&self, other: &App) -> bool {
        &&& self.cpu_history == other.cpu_history
        &&& self.memory == other.memory
        &&& self.containers == other.containers
        &&& self.docker_available == other.docker_available
        &&& self.network_stats == other.network_stats
        &&& self.disks == other.disks
    }

    /// This state has the same filter, sort mode, selection and quit flag as
    /// `other` (the fields that collector updates leave alone).
    pub open spec fn same_view_state(&self, other: &App) -> bool {
        &&& self.filter == other.filter
        &&& self.sort_mode == other.sort_mode
        &&& self.selected == other.selected
        &&& self.should_quit == other.should_quit
    }

    /// The processes shown under the current filter.
    pub open spec fn shown(&self) -> Seq<ProcessInfo> {
        matching(self.processes@, self.filter@)
    }

    /// The state before any update: no readings, memory of one byte total
    /// (so that ratios are defined), CPU order, nothing selected or filtered.
    pub fn new() -> (r: App)
        ensures
            r.cpu_history@.len() == 0,
            r.memory == (MemoryInfo { total: 1, used: 0, swap_total: 1, swap_used: 0 }),
            r.processes@.len() == 0,
            r.filter@.len() == 0,
            r.sort_mode == SortMode::Cpu,
            r.selected == 0,
            !r.should_quit,
            r.containers@.len() == 0,
            !r.docker_available,
            r.network_stats@.len() == 0,
            r.disks@.len() == 0,
    {
        App {
            cpu_history: Vec::new(),
            memory: MemoryInfo { total: 1, used: 0, swap_total: 1, swap_used: 0 },
            processes: Vec::new(),
            filter: String::new(),
            sort_mode: SortMode::Cpu,
            selected: 0,
            should_quit: false,
            containers: Vec::new(),
            docker_available: false,
            network_stats: Vec::new(),
            disks: Vec::new(),
        }
    }

    /// The processes in the order of the current sort mode.
    pub fn apply_sort(&self, procs: Vec<ProcessInfo>) -> (r: Vec<ProcessInfo>)
        ensures
            r@ == sorted_by(procs@, self.sort_mode),
    {
        sort_processes(procs, self.sort_mode)
    }

    /// The processes shown under the current filter, in list order.
    pub fn filtered_processes(&self) -> (r: Vec<&ProcessInfo>)
        ensures
            r@.map_values(|p: &ProcessInfo| *p) == self.shown(),
    {
        filter_processes(&self.processes, self.filter.as_str())
    }

    /// The row that the process table highlights: the selection, kept within
    /// the shown processes (row 0 when none is shown).
    pub fn selected_row(&self) -> (r: usize)
        ensures
            self.shown().len() == 0 ==> r == 0,
            self.shown().len() > 0 ==> r == if self.selected < self.shown().len() {
                self.selected as int
            } else {
                self.shown().len() - 1
            },
    {
        let n = self.filtered_processes().len();
        let last = if n > 0 { n - 1 } else { 0 };
        if self.selected < last { self.selected } else { last }
    }

    /// The title of the process panel: the sort mode and the key help while
    /// no filter is typed, otherwise the filter.
    pub fn process_title(&self) -> (r: String)
        ensures
            r@ == process_title_text(self.filter@, self.sort_mode),
    {
        if self.filter.as_str().is_empty() {
            let mut t = String::from_str(" Processes [sort: ");
            t.append(self.sort_mode.label());
            t.append("] (s=sort, /=filter, q=quit) ");
            t
        } else {
            let mut t = String::from_str(" Processes [filter: ");
            t.append(self.filter.as_str());
            t.append("] ");
            t
        }
    }

    /// Takes one collector update into the state.
    pub fn apply_message(&mut self, msg: CollectorMessage)
        ensures
            final(self).same_view_state(old(self)),
            match msg {
                CollectorMessage::Cpu(cores) => {
                    &&& history_view(final(self).cpu_history@) == history_after(
                        history_view(old(self).cpu_history@),
                        cores@,
                    )
                    &&& final(self).cpu_history@.len() == cores@.len()
                    &&& final(self).memory == old(self).memory
                    &&& final(self).processes == old(self).processes
                    &&& final(self).containers == old(self).containers
                    &&& final(self).docker_available == old(self).docker_available
                    &&& final(self).network_stats == old(self).network_stats
                    &&& final(self).disks == old(self).disks
                },
                CollectorMessage::Memory(info) => {
                    &&& final(self).memory == info
                    &&& final(self).cpu_history == old(self).cpu_history
                    &&& final(self).processes == old(self).processes
                    &&& final(self).containers == old(self).containers
                    &&& final(self).docker_available == old(self).docker_available
                    &&& final(self).network_stats == old(self).network_stats
                    &&& final(self).disks == old(self).disks
                },
                CollectorMessage::Process(procs) => {
                    &&& final(self).processes@ == sorted_by(procs@, old(self).sort_mode)
                    &&& final(self).cpu_history == old(self).cpu_history
                    &&& final(self).memory == old(self).memory
                    &&& final(self).containers == old(self).containers
                    &&& final(self).docker_available == old(self).docker_available
                    &&& final(self).network_stats == old(self).network_stats
                    &&& final(self).disks == old(self).disks
                },
                CollectorMessage::Docker(containers) => {
                    &&& final(self).containers == containers
                    &&& final(self).docker_available
                    &&& final(self).cpu_history == old(self).cpu_history
                    &&& final(self).memory == old(self).memory
                    &&& final(self).processes == old(self).processes
                    &&& final(self).network_stats == old(self).network_stats
                    &&& final(self).disks == old(self).disks
                },
                CollectorMessage::Network(stats) => {
                    &&& final(self).network_stats == stats
                    &&& final(self).cpu_history == old(self).cpu_history
                    &&& final(self).memory == old(self).memory
                    &&& final(self).processes == old(self).processes
                    &&& final(self).containers == old(self).containers
                    &&& final(self).docker_available == old(self).docker_available
                    &&& final(self).disks == old(self).disks
                },
                CollectorMessage::Disk(stats) => {
                    &&& final(self).disks == stats
                    &&& final(self).cpu_history == old(self).cpu_history
                    &&& final(self).memory == old(self).memory
                    &&& final(self).processes == old(self).processes
                    &&& final(self).containers == old(self).containers
                    &&& final(self).docker_available == old(self).docker_available
                    &&& final(self).network_stats == old(self).network_stats
                },
            },
    {
        match msg {
            CollectorMessage::Cpu(cores) => {
                self.record_cpu(&cores);
            },
            CollectorMessage::Memory(info) => {
                self.memory = info;
            },
            CollectorMessage::Process(procs) => {
                self.processes = self.apply_sort(procs);
            },
            CollectorMessage::Docker(containers) => {
                self.docker_available = true;
                self.containers = containers;
            },
            CollectorMessage::Network(stats) => {
                self.network_stats = stats;
            },
            CollectorMessage::Disk(stats) => {
                self.disks = stats;
            },
        }
    }

    /// Appends one sample per core to the CPU history.
    fn record_cpu(&mut self, cores: &Vec<u64>)
        ensures
            final(self).cpu_history@.len() == cores@.len(),
            history_view(final(self).cpu_history@) == history_after(
                history_view(old(self).cpu_history@),
                cores@,
            ),
            final(self).same_view_state(old(self)),
            final(self).memory == old(self).memory,
            final(self).processes == old(self).processes,
            final(self).containers == old(self).containers,
            final(self).docker_available == old(self).docker_available,
            final(self).network_stats == old(self).network_stats,
            final(self).disks == old(self).disks,
    {
        let ghost before = history_view(self.cpu_history@);
        let ghost target = history_after(before, cores@);
        let n = cores.len();
        let reset = self.cpu_history.len() != n;
        let mut rest: Vec<Vec<u64>> = Vec::new();
        std::mem::swap(&mut rest, &mut self.cpu_history);
        let mut fresh: Vec<Vec<u64>> = Vec::new();
        let mut i: usize = 0;
        assert(history_view(rest@).skip(0) =~= history_view(rest@));
        while i < n
            invariant
                n == cores@.len(),
                i <= n,
                reset == (before.len() != n),
                target == history_after(before, cores@),
                target.len() == n,
                !reset ==> history_view(rest@) == before.skip(i as int),
                history_view(fresh@) == target.take(i as int),
            decreases n - i,
        {
            let ghost rest_before = rest@;
            let mut h: Vec<u64> = Vec::new();
            if !reset {
                h = rest.remove(0);
                assert(history_view(rest@) =~= history_view(rest_before).drop_first());
                assert(history_view(rest_before)[0] == h@);
                assert(before.skip(i as int).drop_first() =~= before.skip(i + 1));
            }
            assert(h@ == if before.len() == n {
                before[i as int]
            } else {
                Seq::<u64>::empty()
            });
            h.push(cores[i]);
            if h.len() > CPU_HISTORY_LEN {
                h.remove(0);
            }
            assert(h@ =~= with_sample(
                if before.len() == n {
                    before[i as int]
                } else {
                    Seq::<u64>::empty()
                },
                cores@[i as int],
            ));
            let ghost prev = fresh@;
            fresh.push(h);
            assert(history_view(fresh@) =~= history_view(prev).push(target[i as int]));
            i = i + 1;
            assert(target.take(i as int) =~= target.take(i - 1).push(target[i - 1]));
        }
        assert(target.take(n as int) =~= target);
        assert(history_view(fresh@).len() == fresh@.len());
        self.cpu_history = fresh;
    }

    /// Handles one key press: `q` quits; Down and Up move the selection
    /// within the shown processes; `s` switches to the next sort mode,
    /// re-sorts and selects the first row; `/` clears the filter; any other
    /// character extends the filter and selects the first row; Backspace
    /// removes the filter's last character; other keys do nothing.
    pub fn handle_key(&mut self, key: Key)
        ensures
            final(self).same_readings(old(self)),
            final(self).should_quit == quit_after(old(self).should_quit, key),
            final(self).sort_mode == sort_after(old(self).sort_mode, key),
            final(self).filter@ == filter_after(old(self).filter@, key),
            final(self).selected == selected_after(old(self).selected, old(self).shown().len(), key),
            final(self).processes@ == list_after(old(self).processes@, old(self).sort_mode, key),
            key != Key::Char('s') ==> final(self).processes == old(self).processes,
            key == Key::Other ==> *final(self) == *old(self),
    {
        match key {
            Key::Char('q') => {
                self.should_quit = true;
            },
            Key::Down => {
                let len = self.filtered_processes().len();
                if len > 0 {
                    if self.selected < len - 1 {
                        self.selected = self.selected + 1;
                    } else {
                        self.selected = len - 1;
                    }
                }
            },
            Key::Up => {
                if self.selected > 0 {
                    self.selected = self.selected - 1;
                }
            },
            Key::Char('s') => {
                self.sort_mode = self.sort_mode.next();
                let mut procs: Vec<ProcessInfo> = Vec::new();
                std::mem::swap(&mut procs, &mut self.processes);
                self.processes = self.apply_sort(procs);
                self.selected = 0;
            },
            Key::Char('/') => {
                self.filter = String::new();
            },
            Key::Char(c) => {
                push_char(&mut self.filter, c);
                self.selected = 0;
            },
            Key::Backspace => {
                pop_char(&mut self.filter);
            },
            Key::Other => {},
        }
    }
}

/// The title of the process panel for the given filter and sort mode.
pub open spec fn process_title_text(filter: Seq<char>, mode: SortMode) -> Seq<char> {
    if filter.len() == 0 {
        " Processes [sort: "@ + mode.spec_label() + "] (s=sort, /=filter, q=quit) "@
    } else {
        " Processes [filter: "@ + filter + "] "@
    }
}

/// A character key that edits the filter rather than giving a command.
pub open spec fn is_filter_char(c: char) -> bool {
    c != 'q' && c != 's' && c != '/'
}

/// Whether the monitor should quit after `key`: `q` asks it to.
pub open spec fn quit_after(quit: bool, key: Key) -> bool {
    quit || key == Key::Char('q')
}

/// The sort mode after `key`: `s` moves to the next mode.
pub open spec fn sort_after(mode: SortMode, key: Key) -> SortMode {
    if key == Key::Char('s') {
        mode.spec_next()
    } else {
        mode
    }
}

/// The filter after `key`: `/` clears it, a filter character is appended,
/// Backspace removes the last character if there is one.
pub open spec fn filter_after(filter: Seq<char>, key: Key) -> Seq<char> {
    match key {
        Key::Char(c) => if c == '/' {
            Seq::empty()
        } else if is_filter_char(c) {
            filter.push(c)
        } else {
            filter
        },
        Key::Backspace => if filter.len() > 0 {
            filter.drop_last()
        } else {
            filter
        },
        _ => filter,
    }
}

/// The selected row after `key`, when `shown` processes are shown: Down
/// moves one row down but not past the last shown row, Up moves one row up
/// but not above the first, `s` and filter characters go back to the first
/// row.
pub open spec fn selected_after(selected: usize, shown: nat, key: Key) -> int {
    match key {
        Key::Down => if shown == 0 {
            selected as int
        } else if selected + 1 < shown {
            selected + 1
        } else {
            shown - 1
        },
        Key::Up => if selected > 0 {
            selected - 1
        } else {
            0
        },
        Key::Char(c) => if c == 's' || is_filter_char(c) {
            0
        } else {
            selected as int
        },
        _ => selected as int,
    }
}

/// The process list after `key`: `s` re-sorts it in the next mode.
pub open spec fn list_after(procs: Seq<ProcessInfo>, mode: SortMode, key: Key) -> Seq<ProcessInfo> {
    if key == Key::Char('s') {
        sorted_by(procs, sort_after(mode, key))
    } else {
        procs
    }
}

/// A process list in the order of the sort mode stays in the order of the
/// sort mode whatever key is pressed, and keeps the same processes.
pub proof fn lemma_list_stays_sorted(procs: Seq<ProcessInfo>, mode: SortMode, key: Key)
    requires
        is_sorted_by(procs, mode),
    ensures
        is_sorted_by(list_after(procs, mode, key), sort_after(mode, key)),
        list_after(procs, mode, key).to_multiset() == procs.to_multiset(),
{
    if key == Key::Char('s') {
        lemma_sorted_by_is_sorted(procs, sort_after(mode, key));
        lemma_sorted_by_permutes(procs, sort_after(mode, key));
    }
}

/// Typing a filter character and then Backspace gives back the filter one
/// started with.
pub proof fn lemma_type_then_erase(filter: Seq<char>, c: char)
    requires
        is_filter_char(c),
    ensures
        filter_after(filter_after(filter, Key::Char(c)), Key::Backspace) == filter,
{
    assert(filter.push(c).drop_last() =~= filter);
}

/// `/` empties the filter whatever it held.
pub proof fn lemma_slash_clears(filter: Seq<char>)
    ensures
        filter_after(filter, Key::Char('/')).len() == 0,
{
}

/// Pressing `s` three times gives back the sort mode one started from.
pub proof fn lemma_sort_key_cycles(mode: SortMode)
    ensures
        sort_after(sort_after(sort_after(mode, Key::Char('s')), Key::Char('s')), Key::Char('s'))
            == mode,
        sort_after(mode, Key::Char('s')) != mode,
{
}

/// Down moves the selection exactly one row down while it is above the last
/// shown row, and onto the last shown row otherwise; with no row shown it
/// stays. Up moves it exactly one row up unless it is on the first row.
/// Down then Up, from above the last shown row, comes back to where it was.
pub proof fn lemma_down_up_steps(selected: usize, shown: nat)
    ensures
        shown > 0 && selected + 1 < shown ==> selected_after(selected, shown, Key::Down)
            == selected + 1,
        shown > 0 && selected + 1 >= shown ==> selected_after(selected, shown, Key::Down) == shown
            - 1,
        shown == 0 ==> selected_after(selected, shown, Key::Down) == selected,
        selected > 0 ==> selected_after(selected, shown, Key::Up) == selected - 1,
        selected == 0 ==> selected_after(selected, shown, Key::Up) == 0,
        shown <= usize::MAX && selected + 1 < shown ==> selected_after(
            selected_after(selected, shown, Key::Down) as usize,
            shown,
            Key::Up,
        ) == selected,
{
}

/// After Down the selection lies on a shown row whenever some row is shown,
/// and Up never moves it below the first row nor down the list.
pub proof fn lemma_selection_moves(selected: usize, shown: nat)
    ensures
        shown > 0 ==> 0 <= selected_after(selected, shown, Key::Down) < shown,
        0 <= selected_after(selected, shown, Key::Up) <= selected,
{
}

} // verus!
