//! The coordinator: owns the per-tick state, drives the snapshot,
//! DNS, sort and diff steps, and handles keyboard input.

use vstd::prelude::*;

use crate::assemble::{attach_hostnames, spec_with_hostname, PidCache};
use crate::clock::TimeOfDay;
use crate::dns::{spec_merge, spec_parse_displaydns, DnsCache};
use crate::filter::{filtered_connections, spec_filtered_connections};
use crate::net::IpAddress;
use crate::sort::{lemma_sort_view, sort_connections, spec_sort_connections, spec_sort_models};
use crate::speed::{spec_delta, spec_rate, spec_sat_add, SpeedMonitor};
use crate::text::drop_last_char;
use crate::tracker::{
    spec_build_current, spec_closed_events, spec_fresh_events, spec_retain_data, spec_trim,
    TrafficTracker,
};
use crate::types::{BottomTab, Connection, ConnectionModel};

verus! {

/// One keyboard event, as the coordinator reads it.
#[derive(Clone, Copy, Debug, PartialEq, Eq, Structural)]
pub enum KeyInput {
    Char(char),
    Tab,
    Up,
    Down,
    PageUp,
    PageDown,
    Home,
    End,
    Backspace,
    Esc,
    Other,
}

/// The monitor's state: speed, connections, the traffic tracker, the
/// caches, and the view settings.
pub struct App {
    pub speed: SpeedMonitor,
    pub connections: Vec<Connection>,
    pub conn_scroll: usize,
    pub sort_column: usize,
    pub sort_ascending: bool,
    pub show_listen: bool,
    pub filter_text: String,
    pub traffic_tracker: TrafficTracker,
    pub bottom_tab: BottomTab,
    pub hide_localhost_conn: bool,
    pub pid_cache: PidCache,
    pub dns_cache: DnsCache,
    pub dns_tick: u32,
}

/// The cache after one tick's observations: the fast source first,
/// then the fallback lines when the tick consulted them, first writer
/// winning throughout.
pub open spec fn spec_cache_after(
    m: Seq<(IpAddress, Seq<char>)>,
    api: Seq<(IpAddress, Seq<char>)>,
    fallback: Option<Seq<Seq<char>>>,
) -> Seq<(IpAddress, Seq<char>)> {
    let m1 = spec_merge(m, api);
    match fallback {
        Some(lines) => spec_merge(
            m1,
            spec_parse_displaydns(lines, 0, None, Seq::<(IpAddress, Seq<char>)>::empty()),
        ),
        None => m1,
    }
}

impl App {
    pub open spec fn wf(&self) -> bool {
        &&& self.traffic_tracker.wf()
        &&& self.speed.history.wf()
    }

    /// All state but the named sorting fields and the connection list
    /// unchanged.
    pub open spec fn same_but_sort(o: App, f: App) -> bool {
        &&& f.speed == o.speed
        &&& f.conn_scroll == o.conn_scroll
        &&& f.show_listen == o.show_listen
        &&& f.filter_text == o.filter_text
        &&& f.traffic_tracker == o.traffic_tracker
        &&& f.bottom_tab == o.bottom_tab
        &&& f.hide_localhost_conn == o.hide_localhost_conn
        &&& f.pid_cache == o.pid_cache
        &&& f.dns_cache == o.dns_cache
        &&& f.dns_tick == o.dns_tick
    }

    /// What toggling a sort column does: same column flips the
    /// direction, a new column starts ascending; the list is re-sorted
    /// under the new key.
    pub open spec fn spec_toggled(o: App, f: App, col: int) -> bool {
        &&& App::same_but_sort(o, f)
        &&& f.sort_column == col
        &&& f.sort_ascending == (if o.sort_column == col {
            !o.sort_ascending
        } else {
            true
        })
        &&& f.connections@ == spec_sort_connections(o.connections@, col, f.sort_ascending)
    }

    pub fn new(recv: u64, sent: u64, interface_name: String) -> (a: App)
        ensures
            a.wf(),
            a.speed.prev_recv == recv,
            a.speed.prev_sent == sent,
            a.speed.interface_name == interface_name,
            a.speed.history.max_points == 60,
            a.connections@ == Seq::<Connection>::empty(),
            a.conn_scroll == 0,
            a.sort_column == 5,
            a.sort_ascending,
            a.show_listen,
            a.filter_text@ == Seq::<char>::empty(),
            a.traffic_tracker.max_log_size == 5000,
            a.traffic_tracker.log_view() == Seq::<crate::types::TrafficEntryModel>::empty(),
            !a.traffic_tracker.paused,
            a.bottom_tab == BottomTab::Traffic,
            a.hide_localhost_conn,
            a.pid_cache@ == Seq::<(u32, Seq<char>)>::empty(),
            a.dns_cache@ == Seq::<(IpAddress, Seq<char>)>::empty(),
            a.dns_tick == 0,
    {
        App {
            speed: SpeedMonitor::new(recv, sent, interface_name, 60),
            connections: Vec::new(),
            conn_scroll: 0,
            sort_column: 5,
            sort_ascending: true,
            show_listen: true,
            filter_text: String::new(),
            traffic_tracker: TrafficTracker::new(5000),
            bottom_tab: BottomTab::Traffic,
            hide_localhost_conn: true,
            pid_cache: PidCache::new(),
            dns_cache: DnsCache::new(),
            dns_tick: 0,
        }
    }

    /// Whether this tick also consults the slow fallback DNS source,
    /// once per ten ticks.
    pub fn fallback_due(&self) -> (r: bool)
        ensures
            r == (self.dns_tick % 10 == 0),
    {
        self.dns_tick % 10 == 0
    }

    /// One tick: the speed sample, the DNS merges, hostname
    /// attachment, the sort, and the snapshot diff, in that order.
    /// `connections` is the assembled snapshot with process names
    /// already applied; `fallback_lines` is the fallback source's
    /// output when this tick consulted it.
    pub fn update(
        &mut self,
        now: TimeOfDay,
        recv: u64,
        sent: u64,
        elapsed_ms: u64,
        interface_name: String,
        connections: Vec<Connection>,
        dns_api: &Vec<(IpAddress, String)>,
        fallback_lines: Option<&Vec<String>>,
    )
        requires
            old(self).wf(),
        ensures
            final(self).wf(),
            final(self).conn_scroll == old(self).conn_scroll,
            final(self).sort_column == old(self).sort_column,
            final(self).sort_ascending == old(self).sort_ascending,
            final(self).show_listen == old(self).show_listen,
            final(self).filter_text == old(self).filter_text,
            final(self).bottom_tab == old(self).bottom_tab,
            final(self).hide_localhost_conn == old(self).hide_localhost_conn,
            final(self).pid_cache == old(self).pid_cache,
            final(self).dns_tick == (if old(self).dns_tick == u32::MAX {
                0u32
            } else {
                (old(self).dns_tick + 1) as u32
            }),
            final(self).dns_cache@ == spec_cache_after(
                old(self).dns_cache@,
                dns_api.deep_view(),
                match fallback_lines {
                    Some(l) => Some(l.deep_view()),
                    None => None,
                },
            ),
            final(self).connections.deep_view() == spec_sort_models(
                connections.deep_view().map_values(
                    |c: ConnectionModel|
                        spec_with_hostname(
                            c,
                            spec_cache_after(
                                old(self).dns_cache@,
                                dns_api.deep_view(),
                                match fallback_lines {
                                    Some(l) => Some(l.deep_view()),
                                    None => None,
                                },
                            ),
                        ),
                ),
                old(self).sort_column as int,
                old(self).sort_ascending,
            ),
            elapsed_ms > 0 ==> {
                &&& final(self).speed.current_down == spec_rate(
                    spec_delta(old(self).speed.prev_recv, recv),
                    elapsed_ms,
                )
                &&& final(self).speed.current_up == spec_rate(
                    spec_delta(old(self).speed.prev_sent, sent),
                    elapsed_ms,
                )
                &&& final(self).speed.total_down == spec_sat_add(
                    old(self).speed.total_down,
                    spec_delta(old(self).speed.prev_recv, recv),
                )
                &&& final(self).speed.total_up == spec_sat_add(
                    old(self).speed.total_up,
                    spec_delta(old(self).speed.prev_sent, sent),
                )
            },
            final(self).speed.prev_recv == recv,
            final(self).speed.prev_sent == sent,
            final(self).speed.interface_name == interface_name,
            ({
                let conns = final(self).connections.deep_view();
                let m = final(self).dns_cache@;
                let prevm = old(self).traffic_tracker.prev_view();
                let cd = old(self).traffic_tracker.data_view();
                let current = spec_build_current(conns, m);
                let emitted = spec_fresh_events(prevm, cd, conns, m, now) + spec_closed_events(
                    prevm,
                    current,
                    cd,
                    now,
                );
                &&& (old(self).traffic_tracker.paused ==> final(self).traffic_tracker == old(self).traffic_tracker)
                &&& (!old(self).traffic_tracker.paused ==> {
                    &&& final(self).traffic_tracker.prev_view() == current
                    &&& final(self).traffic_tracker.log_view() == spec_trim(
                        old(self).traffic_tracker.log_view() + emitted,
                        old(self).traffic_tracker.max_log_size as int,
                    )
                    &&& final(self).traffic_tracker.data_view() == spec_retain_data(
                        cd,
                        prevm,
                        current,
                    )
                })
                &&& final(self).traffic_tracker.max_log_size == old(self).traffic_tracker.max_log_size
                &&& final(self).traffic_tracker.paused == old(self).traffic_tracker.paused
                &&& final(self).traffic_tracker.filter_text == old(self).traffic_tracker.filter_text
                &&& final(self).traffic_tracker.hide_localhost == old(self).traffic_tracker.hide_localhost
                &&& final(self).traffic_tracker.auto_scroll == old(self).traffic_tracker.auto_scroll
            }),
    {
        if elapsed_ms > 0 {
            self.speed.sample(recv, sent, elapsed_ms, interface_name);
        } else {
            self.speed.prev_recv = recv;
            self.speed.prev_sent = sent;
            self.speed.interface_name = interface_name;
        }

        self.dns_cache.merge(dns_api);
        match fallback_lines {
            Some(lines) => {
                let obs = crate::dns::parse_displaydns(lines);
                self.dns_cache.merge(&obs);
            },
            None => {},
        }
        self.dns_tick = if self.dns_tick == u32::MAX {
            0
        } else {
            self.dns_tick + 1
        };

        let ghost conns0 = connections.deep_view();
        let ghost m2v = self.dns_cache@;
        let attached = attach_hostnames(connections, &self.dns_cache);
        self.connections = attached;
        let ghost attached_vals = self.connections@;
        proof {
            assert(attached_vals.map_values(|x: Connection| x@) =~= self.connections.deep_view());
        }
        sort_connections(&mut self.connections, self.sort_column, self.sort_ascending);
        proof {
            lemma_sort_view(attached_vals, self.sort_column as int, self.sort_ascending);
            assert(self.connections.deep_view() =~= spec_sort_connections(
                attached_vals,
                self.sort_column as int,
                self.sort_ascending,
            ).map_values(|x: Connection| x@));
            assert(conns0.map_values(|c: ConnectionModel| spec_with_hostname(c, m2v))
                =~= conns0.map_values(
                |c: ConnectionModel|
                    spec_with_hostname(
                        c,
                        spec_cache_after(
                            old(self).dns_cache@,
                            dns_api.deep_view(),
                            match fallback_lines {
                                Some(l) => Some(l.deep_view()),
                                None => None,
                            },
                        ),
                    ),
            ));
        }
        self.traffic_tracker.update(now, &self.connections, &self.dns_cache);
    }

    /// The records the connection view shows.
    pub fn filtered_connections(&self) -> (r: Vec<Connection>)
        ensures
            r@ == spec_filtered_connections(
                self.connections@,
                self.hide_localhost_conn,
                self.show_listen,
                self.filter_text@,
            ),
    {
        filtered_connections(
            &self.connections,
            self.hide_localhost_conn,
            self.show_listen,
            &self.filter_text,
        )
    }

    /// Re-sorts under `col`: a repeated column flips direction, a new
    /// one starts ascending.
    pub fn toggle_sort(&mut self, col: usize)
        ensures
            App::spec_toggled(*old(self), *final(self), col as int),
    {
        if self.sort_column == col {
            self.sort_ascending = !self.sort_ascending;
        } else {
            self.sort_column = col;
            self.sort_ascending = true;
        }
        sort_connections(&mut self.connections, self.sort_column, self.sort_ascending);
    }

    fn scroll_up(&mut self, n: usize)
        ensures
            final(self).bottom_tab == old(self).bottom_tab,
            old(self).bottom_tab == BottomTab::Connections ==> final(self).conn_scroll == (if old(self).conn_scroll >= n {
                (old(self).conn_scroll - n) as usize
            } else {
                0usize
            }) && final(self).traffic_tracker == old(self).traffic_tracker,
            old(self).bottom_tab == BottomTab::Traffic ==> final(self).conn_scroll == old(self).conn_scroll && !final(self).traffic_tracker.auto_scroll && final(self).traffic_tracker.scroll_offset == (if old(self).traffic_tracker.scroll_offset >= n {
                (old(self).traffic_tracker.scroll_offset - n) as usize
            } else {
                0usize
            }) && final(self).traffic_tracker.log == old(self).traffic_tracker.log
                && final(self).traffic_tracker.prev_connections == old(self).traffic_tracker.prev_connections,
            final(self).connections == old(self).connections,
            final(self).speed == old(self).speed,
            final(self).sort_column == old(self).sort_column,
            final(self).sort_ascending == old(self).sort_ascending,
            final(self).show_listen == old(self).show_listen,
            final(self).filter_text == old(self).filter_text,
            final(self).hide_localhost_conn == old(self).hide_localhost_conn,
            final(self).pid_cache == old(self).pid_cache,
            final(self).dns_cache == old(self).dns_cache,
            final(self).dns_tick == old(self).dns_tick,
            old(self).wf() ==> final(self).wf(),
    {
        match self.bottom_tab {
            BottomTab::Connections => {
                self.conn_scroll = if self.conn_scroll >= n {
                    self.conn_scroll - n
                } else {
                    0
                };
            },
            BottomTab::Traffic => {
                self.traffic_tracker.auto_scroll = false;
                self.traffic_tracker.scroll_offset = if self.traffic_tracker.scroll_offset >= n {
                    self.traffic_tracker.scroll_offset - n
                } else {
                    0
                };
            },
        }
    }

    fn scroll_down(&mut self, n: usize)
        requires
            old(self).conn_scroll + n <= usize::MAX,
            old(self).traffic_tracker.scroll_offset + n <= usize::MAX,
        ensures
            final(self).bottom_tab == old(self).bottom_tab,
            old(self).bottom_tab == BottomTab::Connections ==> final(self).conn_scroll == old(self).conn_scroll + n && final(self).traffic_tracker == old(self).traffic_tracker,
            old(self).bottom_tab == BottomTab::Traffic ==> final(self).conn_scroll == old(self).conn_scroll && final(self).traffic_tracker.scroll_offset == old(self).traffic_tracker.scroll_offset + n && final(self).traffic_tracker.auto_scroll == (if
            old(self).traffic_tracker.scroll_offset + n >= old(self).traffic_tracker.log@.len() {
                true
            } else {
                old(self).traffic_tracker.auto_scroll
            }) && final(self).traffic_tracker.log == old(self).traffic_tracker.log && final(self).traffic_tracker.prev_connections == old(self).traffic_tracker.prev_connections,
            final(self).connections == old(self).connections,
            final(self).speed == old(self).speed,
            final(self).sort_column == old(self).sort_column,
            final(self).sort_ascending == old(self).sort_ascending,
            final(self).show_listen == old(self).show_listen,
            final(self).filter_text == old(self).filter_text,
            final(self).hide_localhost_conn == old(self).hide_localhost_conn,
            final(self).pid_cache == old(self).pid_cache,
            final(self).dns_cache == old(self).dns_cache,
            final(self).dns_tick == old(self).dns_tick,
            old(self).wf() ==> final(self).wf(),
    {
        match self.bottom_tab {
            BottomTab::Connections => {
                self.conn_scroll = self.conn_scroll + n;
            },
            BottomTab::Traffic => {
                self.traffic_tracker.scroll_offset = self.traffic_tracker.scroll_offset + n;
                let max = self.traffic_tracker.log.len();
                if self.traffic_tracker.scroll_offset >= max {
                    self.traffic_tracker.auto_scroll = true;
                }
            },
        }
    }

    fn scroll_home(&mut self)
        ensures
            final(self).bottom_tab == old(self).bottom_tab,
            old(self).bottom_tab == BottomTab::Connections ==> final(self).conn_scroll == 0
                && final(self).traffic_tracker == old(self).traffic_tracker,
            old(self).bottom_tab == BottomTab::Traffic ==> final(self).conn_scroll == old(self).conn_scroll && !final(self).traffic_tracker.auto_scroll && final(self).traffic_tracker.scroll_offset == 0 && final(self).traffic_tracker.log == old(self).traffic_tracker.log && final(self).traffic_tracker.prev_connections == old(self).traffic_tracker.prev_connections,
            final(self).connections == old(self).connections,
            final(self).speed == old(self).speed,
            final(self).filter_text == old(self).filter_text,
            old(self).wf() ==> final(self).wf(),
    {
        match self.bottom_tab {
            BottomTab::Connections => {
                self.conn_scroll = 0;
            },
            BottomTab::Traffic => {
                self.traffic_tracker.auto_scroll = false;
                self.traffic_tracker.scroll_offset = 0;
            },
        }
    }

    fn scroll_end(&mut self)
        ensures
            final(self).bottom_tab == old(self).bottom_tab,
            old(self).bottom_tab == BottomTab::Connections ==> final(self).conn_scroll == old(self).connections@.len() && final(self).traffic_tracker == old(self).traffic_tracker,
            old(self).bottom_tab == BottomTab::Traffic ==> final(self).conn_scroll == old(self).conn_scroll && final(self).traffic_tracker.auto_scroll && final(self).traffic_tracker.scroll_offset == old(self).traffic_tracker.log@.len() && final(self).traffic_tracker.log == old(self).traffic_tracker.log && final(self).traffic_tracker.prev_connections == old(self).traffic_tracker.prev_connections,
            final(self).connections == old(self).connections,
            final(self).speed == old(self).speed,
            final(self).filter_text == old(self).filter_text,
            old(self).wf() ==> final(self).wf(),
    {
        match self.bottom_tab {
            BottomTab::Connections => {
                self.conn_scroll = self.connections.len();
            },
            BottomTab::Traffic => {
                self.traffic_tracker.auto_scroll = true;
                self.traffic_tracker.scroll_offset = self.traffic_tracker.log.len();
            },
        }
    }

    /// What a key does on the connections tab: toggles, sort keys
    /// mapped to the displayed column order, and filter-text edits.
    pub open spec fn spec_connections_key(o: App, f: App, key: KeyInput) -> bool {
        if key == KeyInput::Char('l') || key == KeyInput::Char('L') {
            f == App { show_listen: !o.show_listen, ..o }
        } else if key == KeyInput::Char('x') || key == KeyInput::Char('X') {
            f == App { hide_localhost_conn: !o.hide_localhost_conn, ..o }
        } else if key == KeyInput::Char('1') {
            App::spec_toggled(o, f, 6)
        } else if key == KeyInput::Char('2') {
            App::spec_toggled(o, f, 3)
        } else if key == KeyInput::Char('3') {
            App::spec_toggled(o, f, 4)
        } else if key == KeyInput::Char('4') {
            App::spec_toggled(o, f, 5)
        } else if key == KeyInput::Char('5') {
            App::spec_toggled(o, f, 2)
        } else if key == KeyInput::Backspace {
            f.filter_text@ == (if o.filter_text@.len() > 0 {
                o.filter_text@.drop_last()
            } else {
                o.filter_text@
            }) && App::same_but_filter(o, f)
        } else if key == KeyInput::Esc {
            f.filter_text@ == Seq::<char>::empty() && App::same_but_filter(o, f)
        } else if (key matches KeyInput::Char(c) && c != 'f' && c != 'F') {
            (key matches KeyInput::Char(c) ==> f.filter_text@ == o.filter_text@.push(c))
                && App::same_but_filter(o, f)
        } else {
            f == o
        }
    }

    /// All state but the connection filter text unchanged.
    pub open spec fn same_but_filter(o: App, f: App) -> bool {
        &&& f.speed == o.speed
        &&& f.connections == o.connections
        &&& f.conn_scroll == o.conn_scroll
        &&& f.sort_column == o.sort_column
        &&& f.sort_ascending == o.sort_ascending
        &&& f.show_listen == o.show_listen
        &&& f.traffic_tracker == o.traffic_tracker
        &&& f.bottom_tab == o.bottom_tab
        &&& f.hide_localhost_conn == o.hide_localhost_conn
        &&& f.pid_cache == o.pid_cache
        &&& f.dns_cache == o.dns_cache
        &&& f.dns_tick == o.dns_tick
    }

    fn handle_connections_key(&mut self, key: KeyInput)
        ensures
            App::spec_connections_key(*old(self), *final(self), key),
            old(self).wf() ==> final(self).wf(),
    {
        match key {
            KeyInput::Char('l') | KeyInput::Char('L') => {
                self.show_listen = !self.show_listen;
            },
            KeyInput::Char('x') | KeyInput::Char('X') => {
                self.hide_localhost_conn = !self.hide_localhost_conn;
            },
            KeyInput::Char('1') => self.toggle_sort(6),
            KeyInput::Char('2') => self.toggle_sort(3),
            KeyInput::Char('3') => self.toggle_sort(4),
            KeyInput::Char('4') => self.toggle_sort(5),
            KeyInput::Char('5') => self.toggle_sort(2),
            KeyInput::Backspace => {
                self.filter_text = drop_last_char(self.filter_text.as_str());
            },
            KeyInput::Esc => {
                self.filter_text = String::new();
            },
            KeyInput::Char(c) => {
                if c == 'f' || c == 'F' {
                    // A filter-mode key for the renderer; no state change.
                } else {
                    crate::text::push_char(&mut self.filter_text, c);
                }
            },
            _ => {},
        }
    }

    /// What a key does on the traffic tab: pause, clear, the loopback
    /// toggle, and filter-text edits on the tracker.
    pub open spec fn spec_traffic_key(o: App, f: App, key: KeyInput) -> bool {
        if key == KeyInput::Char('p') || key == KeyInput::Char('P') {
            f == App {
                traffic_tracker: TrafficTracker {
                    paused: !o.traffic_tracker.paused,
                    ..o.traffic_tracker
                },
                ..o
            }
        } else if key == KeyInput::Char('c') || key == KeyInput::Char('C') {
            f.traffic_tracker.log@ == Seq::<crate::types::TrafficEntry>::empty()
                && f.traffic_tracker.scroll_offset == 0 && f.traffic_tracker.prev_connections
                == o.traffic_tracker.prev_connections && f.traffic_tracker.paused
                == o.traffic_tracker.paused && f.traffic_tracker.filter_text
                == o.traffic_tracker.filter_text && f.traffic_tracker.max_log_size
                == o.traffic_tracker.max_log_size && f.traffic_tracker.hide_localhost
                == o.traffic_tracker.hide_localhost && f.traffic_tracker.auto_scroll
                == o.traffic_tracker.auto_scroll && f.traffic_tracker.conn_data
                == o.traffic_tracker.conn_data && App::same_but_tracker(o, f)
        } else if key == KeyInput::Char('x') || key == KeyInput::Char('X') {
            f == App {
                traffic_tracker: TrafficTracker {
                    hide_localhost: !o.traffic_tracker.hide_localhost,
                    ..o.traffic_tracker
                },
                ..o
            }
        } else if key == KeyInput::Backspace {
            f.traffic_tracker.filter_text@ == (if o.traffic_tracker.filter_text@.len() > 0 {
                o.traffic_tracker.filter_text@.drop_last()
            } else {
                o.traffic_tracker.filter_text@
            }) && App::same_but_tracker_filter(o, f)
        } else if key == KeyInput::Esc {
            f.traffic_tracker.filter_text@ == Seq::<char>::empty() && App::same_but_tracker_filter(
                o,
                f,
            )
        } else if (key matches KeyInput::Char(c)) {
            (key matches KeyInput::Char(c) ==> f.traffic_tracker.filter_text@
                == o.traffic_tracker.filter_text@.push(c)) && App::same_but_tracker_filter(o, f)
        } else {
            f == o
        }
    }

    /// All state outside the tracker unchanged.
    pub open spec fn same_but_tracker(o: App, f: App) -> bool {
        &&& f.speed == o.speed
        &&& f.connections == o.connections
        &&& f.conn_scroll == o.conn_scroll
        &&& f.sort_column == o.sort_column
        &&& f.sort_ascending == o.sort_ascending
        &&& f.show_listen == o.show_listen
        &&& f.filter_text == o.filter_text
        &&& f.bottom_tab == o.bottom_tab
        &&& f.hide_localhost_conn == o.hide_localhost_conn
        &&& f.pid_cache == o.pid_cache
        &&& f.dns_cache == o.dns_cache
        &&& f.dns_tick == o.dns_tick
    }

    /// All state but the tracker's filter text unchanged.
    pub open spec fn same_but_tracker_filter(o: App, f: App) -> bool {
        &&& App::same_but_tracker(o, f)
        &&& f.traffic_tracker.prev_connections == o.traffic_tracker.prev_connections
        &&& f.traffic_tracker.log == o.traffic_tracker.log
        &&& f.traffic_tracker.max_log_size == o.traffic_tracker.max_log_size
        &&& f.traffic_tracker.auto_scroll == o.traffic_tracker.auto_scroll
        &&& f.traffic_tracker.scroll_offset == o.traffic_tracker.scroll_offset
        &&& f.traffic_tracker.paused == o.traffic_tracker.paused
        &&& f.traffic_tracker.conn_data == o.traffic_tracker.conn_data
        &&& f.traffic_tracker.hide_localhost == o.traffic_tracker.hide_localhost
    }

    fn handle_traffic_key(&mut self, key: KeyInput)
        ensures
            App::spec_traffic_key(*old(self), *final(self), key),
            old(self).wf() ==> final(self).wf(),
    {
        match key {
            KeyInput::Char('p') | KeyInput::Char('P') => {
                self.traffic_tracker.paused = !self.traffic_tracker.paused;
            },
            KeyInput::Char('c') | KeyInput::Char('C') => {
                self.traffic_tracker.clear();
            },
            KeyInput::Char('x') | KeyInput::Char('X') => {
                self.traffic_tracker.hide_localhost = !self.traffic_tracker.hide_localhost;
            },
            KeyInput::Backspace => {
                self.traffic_tracker.filter_text = drop_last_char(
                    self.traffic_tracker.filter_text.as_str(),
                );
            },
            KeyInput::Esc => {
                self.traffic_tracker.filter_text = String::new();
            },
            KeyInput::Char(c) => {
                crate::text::push_char(&mut self.traffic_tracker.filter_text, c);
            },
            _ => {},
        }
    }

    /// Handles one key press; true asks the caller to quit. The
    /// navigation keys act on the current tab; anything else goes to
    /// that tab's handler.
    pub fn handle_key(&mut self, key: KeyInput) -> (quit: bool)
        requires
            old(self).conn_scroll + 20 <= usize::MAX,
            old(self).traffic_tracker.scroll_offset + 20 <= usize::MAX,
        ensures
            quit == (key == KeyInput::Char('q') || key == KeyInput::Char('Q')),
            quit ==> *final(self) == *old(self),
            key == KeyInput::Tab ==> final(self).bottom_tab == (match old(self).bottom_tab {
                BottomTab::Traffic => BottomTab::Connections,
                BottomTab::Connections => BottomTab::Traffic,
            }) && App::same_but_tab(*old(self), *final(self)),
            old(self).wf() ==> final(self).wf(),
    {
        match key {
            KeyInput::Char('q') | KeyInput::Char('Q') => {
                return true;
            },
            KeyInput::Tab => {
                self.bottom_tab = self.bottom_tab.next();
            },
            KeyInput::Up => self.scroll_up(1),
            KeyInput::Down => self.scroll_down(1),
            KeyInput::PageUp => self.scroll_up(20),
            KeyInput::PageDown => self.scroll_down(20),
            KeyInput::Home => self.scroll_home(),
            KeyInput::End => self.scroll_end(),
            _ => {
                match self.bottom_tab {
                    BottomTab::Connections => self.handle_connections_key(key),
                    BottomTab::Traffic => self.handle_traffic_key(key),
                }
            },
        }
        false
    }

    /// All state but the bottom tab unchanged.
    pub open spec fn same_but_tab(o: App, f: App) -> bool {
        &&& f.speed == o.speed
        &&& f.connections == o.connections
        &&& f.conn_scroll == o.conn_scroll
        &&& f.sort_column == o.sort_column
        &&& f.sort_ascending == o.sort_ascending
        &&& f.show_listen == o.show_listen
        &&& f.filter_text == o.filter_text
        &&& f.traffic_tracker == o.traffic_tracker
        &&& f.hide_localhost_conn == o.hide_localhost_conn
        &&& f.pid_cache == o.pid_cache
        &&& f.dns_cache == o.dns_cache
        &&& f.dns_tick == o.dns_tick
    }
}


/// A UDP record never shows a state: a snapshot whose UDP records
/// carry none keeps that shape through naming, hostname attachment,
/// and sorting, which only rewrite the name fields or reorder.
pub proof fn lemma_udp_records_stateless(
    s: Seq<ConnectionModel>,
    cache: Seq<(u32, Seq<char>)>,
    m: Seq<(IpAddress, Seq<char>)>,
    col: int,
    asc: bool,
)
    requires
        forall|i: int|
            0 <= i < s.len() ==> ((#[trigger] s[i]).proto == crate::types::ConnProto::Udp
                ==> s[i].state is None),
    ensures
        ({
            let shown = spec_sort_models(
                s.map_values(|c: ConnectionModel| crate::assemble::spec_named(c, cache)).map_values(
                    |c: ConnectionModel| spec_with_hostname(c, m),
                ),
                col,
                asc,
            );
            forall|i: int|
                0 <= i < shown.len() ==> ((#[trigger] shown[i]).proto
                    == crate::types::ConnProto::Udp ==> shown[i].state is None)
        }),
{
    let mapped = s.map_values(|c: ConnectionModel| crate::assemble::spec_named(c, cache)).map_values(
        |c: ConnectionModel| spec_with_hostname(c, m),
    );
    assert(forall|i: int|
        0 <= i < mapped.len() ==> ((#[trigger] mapped[i]).proto == crate::types::ConnProto::Udp
            ==> mapped[i].state is None));
    crate::sort::lemma_sort_models_membership(mapped, col, asc);
    let shown = spec_sort_models(mapped, col, asc);
    assert forall|i: int|
        0 <= i < shown.len() implies ((#[trigger] shown[i]).proto == crate::types::ConnProto::Udp
            ==> shown[i].state is None) by {
        assert(shown.contains(shown[i]));
        assert(mapped.contains(shown[i]));
        let j = choose|j: int| 0 <= j < mapped.len() && mapped[j] == shown[i];
    }
}

} // verus!
