//! The widget's persistent configuration: which sections it shows, in which
//! order, and where it stands on screen.

use vstd::prelude::*;
use crate::text::{first_match, lemma_first_match, lemma_first_match_bounds, owned};

verus! {

broadcast use vstd::seq_lib::group_seq_properties;

pub const UPDATE_INTERVAL_MS: u64 = 1_000;

/// The sections of the widget, which the user can reorder.
#[derive(Debug, Clone, Copy, PartialEq, Eq, Structural)]
pub enum WidgetSection {
    /// CPU, memory and GPU usage.
    Utilization,
    /// Aggregate download and upload throughput.
    Network,
    /// Aggregate disk read and write throughput.
    DiskIo,
    /// CPU and GPU temperatures.
    Temperatures,
    /// Space used on mounted filesystems.
    Storage,
    /// Battery levels of wireless peripherals.
    Battery,
    /// Current weather conditions.
    Weather,
    /// Desktop notifications.
    Notifications,
    /// What is playing now.
    Media,
}

/// How the temperature gauges are drawn.
#[derive(Debug, Clone, Copy, PartialEq, Eq, Structural)]
pub enum TemperatureGaugeStyle {
    /// A three-quarter ring open at the bottom.
    Arc,
    /// A complete ring.
    Circular,
    /// CPU and GPU rows with text values.
    Text,
}

impl Default for TemperatureGaugeStyle {
    fn default() -> (r: Self)
        ensures
            r == TemperatureGaugeStyle::Arc,
    {
        TemperatureGaugeStyle::Arc
    }
}

pub open spec fn section_label(section: WidgetSection) -> Seq<char> {
    match section {
        WidgetSection::Utilization => "Utilization"@,
        WidgetSection::Network => "Network"@,
        WidgetSection::DiskIo => "Disk I/O"@,
        WidgetSection::Temperatures => "Temperatures"@,
        WidgetSection::Storage => "Storage"@,
        WidgetSection::Battery => "Devices"@,
        WidgetSection::Weather => "Weather"@,
        WidgetSection::Notifications => "Notifications"@,
        WidgetSection::Media => "Now Playing"@,
    }
}

impl WidgetSection {
    /// The section's name in the settings list.
    pub fn label(&self) -> (r: &'static str)
        ensures
            r@ == section_label(*self),
    {
        match self {
            WidgetSection::Utilization => "Utilization",
            WidgetSection::Network => "Network",
            WidgetSection::DiskIo => "Disk I/O",
            WidgetSection::Temperatures => "Temperatures",
            WidgetSection::Storage => "Storage",
            WidgetSection::Battery => "Devices",
            WidgetSection::Weather => "Weather",
            WidgetSection::Notifications => "Notifications",
            WidgetSection::Media => "Now Playing",
        }
    }
}

/// Every section, in the widget's canonical order.
pub open spec fn all_sections() -> Seq<WidgetSection> {
    seq![
        WidgetSection::Utilization,
        WidgetSection::Network,
        WidgetSection::DiskIo,
        WidgetSection::Temperatures,
        WidgetSection::Storage,
        WidgetSection::Battery,
        WidgetSection::Weather,
        WidgetSection::Notifications,
        WidgetSection::Media,
    ]
}

/// The user's configuration.
#[derive(Debug, Clone, PartialEq, Eq)]
pub struct Config {
    pub show_cpu: bool,
    pub show_memory: bool,
    pub show_gpu: bool,
    pub show_network: bool,
    pub show_disk: bool,
    pub show_cpu_temp: bool,
    pub show_gpu_temp: bool,
    /// Kept for configurations written by older versions.
    pub use_circular_temp_display: bool,
    pub temperature_gauge_style: TemperatureGaugeStyle,
    pub show_storage: bool,
    pub show_battery: bool,
    /// Use Solaar for Logitech devices that have no native reader.
    pub enable_solaar_integration: bool,
    pub show_weather: bool,
    /// No longer used; kept so that older configurations still load.
    pub weather_api_key: String,
    /// A city name, or "City,Country".
    pub weather_location: String,
    pub show_notifications: bool,
    /// The oldest notifications go beyond this many.
    pub max_notifications: usize,
    pub show_media: bool,
    /// Token for Cider's REST API; empty when Cider does not ask for one.
    pub cider_api_token: String,
    pub show_clock: bool,
    pub show_date: bool,
    pub use_24hour_time: bool,
    pub show_percentages: bool,
    pub widget_x: i32,
    pub widget_y: i32,
    /// Where "reset position" puts the widget.
    pub default_widget_x: i32,
    pub default_widget_y: i32,
    /// Whether the reset position has been captured for this installation.
    pub position_defaults_initialized: bool,
    pub widget_movable: bool,
    /// Sections from top to bottom.
    pub section_order: Vec<WidgetSection>,
    pub widget_autostart: bool,
    pub enable_logging: bool,
}

impl Default for Config {
    /// The configuration of a new installation.
    fn default() -> (r: Self)
        ensures
            r.show_cpu && r.show_memory && !r.show_gpu && !r.show_network && !r.show_disk,
            !r.show_cpu_temp && !r.show_gpu_temp && r.use_circular_temp_display,
            r.temperature_gauge_style == TemperatureGaugeStyle::Arc,
            r.show_storage && !r.show_battery && !r.enable_solaar_integration && !r.show_weather,
            r.weather_api_key@ == Seq::<char>::empty(),
            r.weather_location@ == "London,UK"@,
            !r.show_notifications && r.max_notifications == 5 && !r.show_media,
            r.cider_api_token@ == Seq::<char>::empty(),
            r.show_clock && r.show_date && !r.use_24hour_time && r.show_percentages,
            r.widget_x == 7260 && r.widget_y == 50,
            r.default_widget_x == 7260 && r.default_widget_y == 50,
            !r.position_defaults_initialized && !r.widget_movable && r.widget_autostart,
            r.section_order@ == all_sections(),
            !r.enable_logging,
    {
        Config {
            show_cpu: true,
            show_memory: true,
            show_gpu: false,
            show_network: false,
            show_disk: false,
            show_cpu_temp: false,
            show_gpu_temp: false,
            use_circular_temp_display: true,
            temperature_gauge_style: TemperatureGaugeStyle::Arc,
            show_storage: true,
            show_battery: false,
            enable_solaar_integration: false,
            show_weather: false,
            weather_api_key: String::new(),
            weather_location: owned("London,UK"),
            show_notifications: false,
            max_notifications: 5,
            show_media: false,
            cider_api_token: String::new(),
            show_clock: true,
            show_date: true,
            use_24hour_time: false,
            show_percentages: true,
            widget_x: 7260,
            widget_y: 50,
            default_widget_x: 7260,
            default_widget_y: 50,
            position_defaults_initialized: false,
            widget_movable: false,
            section_order: all_sections_vec(),
            widget_autostart: true,
            enable_logging: false,
        }
    }
}

/// Every section in canonical order, as a vector.
fn all_sections_vec() -> (r: Vec<WidgetSection>)
    ensures
        r@ == all_sections(),
{
    let r = vec![
        WidgetSection::Utilization,
        WidgetSection::Network,
        WidgetSection::DiskIo,
        WidgetSection::Temperatures,
        WidgetSection::Storage,
        WidgetSection::Battery,
        WidgetSection::Weather,
        WidgetSection::Notifications,
        WidgetSection::Media,
    ];
    assert(r@ =~= all_sections());
    r
}

// ---------------------------------------------------------------------------
// Section order
// ---------------------------------------------------------------------------

pub open spec fn is_section(s: WidgetSection) -> spec_fn(WidgetSection) -> bool {
    |x: WidgetSection| x == s
}

/// Index of the first occurrence of `s` in `order`, or -1.
pub open spec fn position(order: Seq<WidgetSection>, s: WidgetSection) -> int {
    first_match(order, is_section(s))
}

/// Where the missing canonical section `c` goes: just after the first
/// occurrence of the nearest section before it (in canonical order) that
/// `order` holds, or at the front.
pub open spec fn anchor(order: Seq<WidgetSection>, c: int) -> int
    decreases c,
{
    if c <= 0 {
        0
    } else if order.contains(all_sections()[c - 1]) {
        position(order, all_sections()[c - 1]) + 1
    } else {
        anchor(order, c - 1)
    }
}

/// Adds canonical section `c` to `order` unless it is there already.
pub open spec fn add_section(order: Seq<WidgetSection>, c: int) -> Seq<WidgetSection> {
    if order.contains(all_sections()[c]) {
        order
    } else {
        order.insert(anchor(order, c), all_sections()[c])
    }
}

/// `order` after adding the missing sections among the first `k` canonical ones.
pub open spec fn add_missing(order: Seq<WidgetSection>, k: nat) -> Seq<WidgetSection>
    decreases k,
{
    if k == 0 {
        order
    } else {
        add_section(add_missing(order, (k - 1) as nat), k - 1)
    }
}

pub open spec fn with_all_sections(order: Seq<WidgetSection>) -> Seq<WidgetSection> {
    add_missing(order, 9)
}

pub open spec fn misses_a_section(order: Seq<WidgetSection>) -> bool {
    exists|c: int| 0 <= c < 9 && !order.contains(#[trigger] all_sections()[c])
}

pub open spec fn held_by(order: Seq<WidgetSection>) -> spec_fn(WidgetSection) -> bool {
    |x: WidgetSection| order.contains(x)
}

proof fn lemma_position(order: Seq<WidgetSection>, s: WidgetSection)
    ensures
        order.contains(s) ==> 0 <= position(order, s) < order.len() && order[position(order, s)] == s,
        !order.contains(s) ==> position(order, s) == -1,
{
    lemma_first_match_bounds(order, is_section(s));
    if !order.contains(s) {
        assert forall|j: int| 0 <= j < order.len() implies !(is_section(s))(order[j]) by {}
        lemma_first_match(order, is_section(s), order.len() as int);
    }
}

proof fn lemma_anchor_bounds(order: Seq<WidgetSection>, c: int)
    ensures
        0 <= anchor(order, c) <= order.len(),
    decreases c,
{
    if c > 0 {
        if order.contains(all_sections()[c - 1]) {
            lemma_position(order, all_sections()[c - 1]);
        } else {
            lemma_anchor_bounds(order, c - 1);
        }
    }
}

proof fn lemma_every_section_is_canonical(s: WidgetSection)
    ensures
        exists|c: int| 0 <= c < 9 && #[trigger] all_sections()[c] == s,
{
    match s {
        WidgetSection::Utilization => assert(all_sections()[0] == s),
        WidgetSection::Network => assert(all_sections()[1] == s),
        WidgetSection::DiskIo => assert(all_sections()[2] == s),
        WidgetSection::Temperatures => assert(all_sections()[3] == s),
        WidgetSection::Storage => assert(all_sections()[4] == s),
        WidgetSection::Battery => assert(all_sections()[5] == s),
        WidgetSection::Weather => assert(all_sections()[6] == s),
        WidgetSection::Notifications => assert(all_sections()[7] == s),
        WidgetSection::Media => assert(all_sections()[8] == s),
    }
}

/// What `add_missing` holds: what `order` held, and the first `k` canonical sections.
proof fn lemma_add_missing_contains(order: Seq<WidgetSection>, k: nat)
    requires
        k <= 9,
    ensures
        forall|x: WidgetSection| #[trigger] add_missing(order, k).contains(x) <==> (order.contains(x)
            || exists|c: int| 0 <= c < k && all_sections()[c] == x),
    decreases k,
{
    if k > 0 {
        lemma_add_missing_contains(order, (k - 1) as nat);
        let prev = add_missing(order, (k - 1) as nat);
        let s = all_sections()[k - 1];
        if !prev.contains(s) {
            lemma_anchor_bounds(prev, k - 1);
            let i = anchor(prev, k - 1);
            let next = prev.insert(i, s);
            prev.insert_ensures(i, s);
            assert forall|x: WidgetSection| next.contains(x) <==> (prev.contains(x) || x == s) by {
                if next.contains(x) {
                    let j = choose|j: int| 0 <= j < next.len() && next[j] == x;
                    if j < i {
                        assert(prev[j] == x);
                    } else if j > i {
                        assert(prev[j - 1] == x);
                    }
                }
                if prev.contains(x) {
                    let j = choose|j: int| 0 <= j < prev.len() && prev[j] == x;
                    if j < i {
                        assert(next[j] == x);
                    } else {
                        assert(next[j + 1] == x);
                    }
                }
                if x == s {
                    assert(next[i] == x);
                }
            }
        }
        assert forall|x: WidgetSection| add_missing(order, k).contains(x) <==> (order.contains(x)
            || exists|c: int| 0 <= c < k && all_sections()[c] == x) by {
            if exists|c: int| 0 <= c < k && all_sections()[c] == x {
                let c = choose|c: int| 0 <= c < k && all_sections()[c] == x;
                if c < k - 1 {
                    assert(exists|c2: int| 0 <= c2 < k - 1 && all_sections()[c2] == x);
                }
            }
            if exists|c: int| 0 <= c < k - 1 && all_sections()[c] == x {
                let c = choose|c: int| 0 <= c < k - 1 && all_sections()[c] == x;
                assert(0 <= c < k && all_sections()[c] == x);
            }
        }
    }
}

proof fn lemma_filter_all(s: Seq<WidgetSection>, p: spec_fn(WidgetSection) -> bool)
    requires
        forall|i: int| 0 <= i < s.len() ==> p(#[trigger] s[i]),
    ensures
        s.filter(p) == s,
    decreases s.len(),
{
    reveal(Seq::filter);
    if s.len() > 0 {
        lemma_filter_all(s.drop_last(), p);
        assert(s.drop_last().push(s.last()) =~= s);
    }
}

proof fn lemma_filter_insert(s: Seq<WidgetSection>, i: int, e: WidgetSection, p: spec_fn(WidgetSection) -> bool)
    requires
        0 <= i <= s.len(),
        !p(e),
    ensures
        s.insert(i, e).filter(p) == s.filter(p),
{
    reveal(Seq::filter);
    let front = s.subrange(0, i);
    let back = s.subrange(i, s.len() as int);
    Seq::filter_distributes_over_add(front.push(e), back, p);
    Seq::filter_distributes_over_add(front, back, p);
    assert(front.push(e).drop_last() =~= front);
    assert(front + back =~= s);
}

/// Adding the missing sections keeps the sections that `order` held, in
/// their order: dropping the added ones gives `order` back.
proof fn lemma_add_missing_keeps_order(order: Seq<WidgetSection>, k: nat)
    requires
        k <= 9,
    ensures
        add_missing(order, k).filter(held_by(order)) == order,
    decreases k,
{
    if k == 0 {
        lemma_filter_all(order, held_by(order));
    } else {
        lemma_add_missing_keeps_order(order, (k - 1) as nat);
        lemma_add_missing_contains(order, (k - 1) as nat);
        let prev = add_missing(order, (k - 1) as nat);
        let s = all_sections()[k - 1];
        if !prev.contains(s) {
            lemma_anchor_bounds(prev, k - 1);
            lemma_filter_insert(prev, anchor(prev, k - 1), s, held_by(order));
        }
    }
}

/// Once every section is there, adding the missing ones changes nothing.
proof fn lemma_add_missing_complete(order: Seq<WidgetSection>, k: nat)
    requires
        k <= 9,
        !misses_a_section(order),
    ensures
        add_missing(order, k) == order,
    decreases k,
{
    if k > 0 {
        lemma_add_missing_complete(order, (k - 1) as nat);
        assert(order.contains(all_sections()[k - 1]));
    }
}

/// After `ensure_all_sections`, every section is in the order.
pub proof fn law_every_section_present(order: Seq<WidgetSection>)
    ensures
        forall|s: WidgetSection| #[trigger] with_all_sections(order).contains(s),
        !misses_a_section(with_all_sections(order)),
{
    lemma_add_missing_contains(order, 9);
    assert forall|s: WidgetSection| #[trigger] with_all_sections(order).contains(s) by {
        lemma_every_section_is_canonical(s);
    }
}

/// `ensure_all_sections` keeps the sections the user had, in the user's order:
/// without the added sections the order is the one it was.
pub proof fn law_existing_order_kept(order: Seq<WidgetSection>)
    ensures
        with_all_sections(order).filter(held_by(order)) == order,
{
    lemma_add_missing_keeps_order(order, 9);
}

/// A second `ensure_all_sections` changes nothing and reports no change.
pub proof fn law_ensure_all_sections_idempotent(order: Seq<WidgetSection>)
    ensures
        with_all_sections(with_all_sections(order)) == with_all_sections(order),
        !misses_a_section(with_all_sections(order)),
{
    law_every_section_present(order);
    lemma_add_missing_complete(with_all_sections(order), 9);
}

/// How many of the first `k` canonical sections `order` lacks.
pub open spec fn missing_count(order: Seq<WidgetSection>, k: nat) -> nat
    decreases k,
{
    if k == 0 {
        0
    } else {
        missing_count(order, (k - 1) as nat) + if order.contains(all_sections()[k - 1]) { 0nat } else { 1nat }
    }
}

proof fn lemma_add_missing_len(order: Seq<WidgetSection>, k: nat)
    requires
        k <= 9,
    ensures
        add_missing(order, k).len() == order.len() + missing_count(order, k),
    decreases k,
{
    if k > 0 {
        lemma_add_missing_len(order, (k - 1) as nat);
        lemma_held_iff_held_before(order, (k - 1) as nat);
        lemma_anchor_bounds(add_missing(order, (k - 1) as nat), k - 1);
    }
}

/// `ensure_all_sections` adds each missing section once: the new order is as
/// long as the old one and the number of sections it lacked.
pub proof fn law_sections_added_once(order: Seq<WidgetSection>)
    ensures
        with_all_sections(order).len() == order.len() + missing_count(order, 9),
{
    lemma_add_missing_len(order, 9);
}

/// The `c`th canonical section is among the first `c` added ones only if it
/// was there to begin with.
proof fn lemma_held_iff_held_before(start: Seq<WidgetSection>, c: nat)
    requires
        c < 9,
    ensures
        add_missing(start, c).contains(all_sections()[c as int]) <==> start.contains(all_sections()[c as int]),
{
    lemma_add_missing_contains(start, c);
    if add_missing(start, c).contains(all_sections()[c as int]) && !start.contains(all_sections()[c as int]) {
        let j = choose|j: int| 0 <= j < c && all_sections()[j] == all_sections()[c as int];
        assert(all_sections()[j] != all_sections()[c as int]);
    }
}

fn position_of(order: &Vec<WidgetSection>, s: WidgetSection) -> (r: Option<usize>)
    ensures
        r matches Some(i) ==> i as int == position(order@, s) && order@.contains(s),
        r is None ==> !order@.contains(s),
{
    let mut i: usize = 0;
    while i < order.len()
        invariant
            i <= order@.len(),
            forall|j: int| 0 <= j < i ==> order@[j] != s,
        decreases order@.len() - i,
    {
        if order[i] == s {
            proof {
                lemma_first_match(order@, is_section(s), i as int);
            }
            return Some(i);
        }
        i += 1;
    }
    None
}

fn anchor_of(order: &Vec<WidgetSection>, all: &[WidgetSection; 9], c: usize) -> (r: usize)
    requires
        all@ == all_sections(),
        c < 9,
    ensures
        r as int == anchor(order@, c as int),
{
    let mut j: usize = c;
    while j > 0
        invariant
            all@ == all_sections(),
            j <= c < 9,
            anchor(order@, c as int) == anchor(order@, j as int),
        decreases j,
    {
        match position_of(order, all[j - 1]) {
            Some(p) => {
                proof {
                    lemma_position(order@, all@[j - 1]);
                }
                let n = order.len();
                assert(p < n);
                return p + 1;
            },
            None => {},
        }
        j -= 1;
    }
    0
}

impl Config {
    /// Every section, in canonical order.
    pub const ALL_SECTIONS: [WidgetSection; 9] = [
        WidgetSection::Utilization,
        WidgetSection::Network,
        WidgetSection::DiskIo,
        WidgetSection::Temperatures,
        WidgetSection::Storage,
        WidgetSection::Battery,
        WidgetSection::Weather,
        WidgetSection::Notifications,
        WidgetSection::Media,
    ];

    /// Adds every section that the order lacks, each just after the nearest
    /// section that precedes it in canonical order, and keeps the user's order
    /// of the others. Returns whether anything was added.
    pub fn ensure_all_sections(&mut self) -> (changed: bool)
        ensures
            final(self).section_order@ == with_all_sections(old(self).section_order@),
            changed == misses_a_section(old(self).section_order@),
            forall|s: WidgetSection| #[trigger] final(self).section_order@.contains(s),
            final(self).section_order@.filter(held_by(old(self).section_order@))
                == old(self).section_order@,
            *final(self) == (Config { section_order: final(self).section_order, ..*old(self) }),
    {
        let ghost start = self.section_order@;
        let mut order: Vec<WidgetSection> = Vec::new();
        std::mem::swap(&mut order, &mut self.section_order);
        let all = Self::ALL_SECTIONS;
        assert(all@ =~= all_sections());
        let mut changed = false;
        let mut c: usize = 0;
        while c < 9
            invariant
                all@ == all_sections(),
                c <= 9,
                order@ == add_missing(start, c as nat),
                changed == exists|j: int| 0 <= j < c && !start.contains(#[trigger] all_sections()[j]),
            decreases 9 - c,
        {
            proof {
                lemma_held_iff_held_before(start, c as nat);
            }
            let section = all[c];
            if position_of(&order, section).is_none() {
                let index = anchor_of(&order, &all, c);
                proof {
                    lemma_anchor_bounds(order@, c as int);
                }
                order.insert(index, section);
                changed = true;
            }
            proof {
                assert(changed == exists|j: int| 0 <= j < c + 1 && !start.contains(#[trigger] all_sections()[j])) by {
                    if !start.contains(all_sections()[c as int]) {
                        assert(0 <= c < c + 1);
                    }
                }
            }
            c += 1;
        }
        self.section_order = order;
        proof {
            law_every_section_present(start);
            law_existing_order_kept(start);
        }
        changed
    }

    /// When the reset position was never captured (an installation older
    /// than that setting), captures the current one. Returns whether it did.
    pub fn ensure_position_defaults(&mut self) -> (captured: bool)
        ensures
            captured == !old(self).position_defaults_initialized,
            *final(self) == position_defaults_captured(*old(self)),
    {
        if self.position_defaults_initialized {
            return false;
        }
        self.default_widget_x = self.widget_x;
        self.default_widget_y = self.widget_y;
        self.position_defaults_initialized = true;
        true
    }

    /// Moves the widget back to its reset position and locks it in place.
    pub fn reset_widget_position(&mut self)
        ensures
            *final(self) == position_reset(*old(self)),
    {
        self.widget_x = self.default_widget_x;
        self.widget_y = self.default_widget_y;
        self.widget_movable = false;
    }
}

pub open spec fn position_defaults_captured(c: Config) -> Config {
    if c.position_defaults_initialized {
        c
    } else {
        Config {
            default_widget_x: c.widget_x,
            default_widget_y: c.widget_y,
            position_defaults_initialized: true,
            ..c
        }
    }
}

pub open spec fn position_reset(c: Config) -> Config {
    Config { widget_x: c.default_widget_x, widget_y: c.default_widget_y, widget_movable: false, ..c }
}

/// Capturing the reset position a second time changes nothing.
pub proof fn law_position_defaults_captured_once(c: Config)
    ensures
        position_defaults_captured(position_defaults_captured(c)) == position_defaults_captured(c),
        position_defaults_captured(c).position_defaults_initialized,
{
}

/// Whatever the widget was moved to after the reset position was captured,
/// a reset brings it back to where it stood at the capture, locked.
pub proof fn law_reset_restores_captured_position(c: Config, x: i32, y: i32, movable: bool)
    requires
        !c.position_defaults_initialized,
    ensures
        ({
            let moved = Config {
                widget_x: x,
                widget_y: y,
                widget_movable: movable,
                ..position_defaults_captured(c)
            };
            &&& position_reset(moved).widget_x == c.widget_x
            &&& position_reset(moved).widget_y == c.widget_y
            &&& !position_reset(moved).widget_movable
        }),
{
}

} // verus!
