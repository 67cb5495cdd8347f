//! Graphics processors and drives out of the registry's property lists.
use vstd::prelude::*;
use vstd::string::*;
use super::lists::{is_readable, readable};
use crate::number::{read_number, reading_of, Reading, UNIT};
use crate::text::{chars_of, part, same_chars, same_text};

verus! {

/// A property.
#[derive(Debug)]
pub enum Node {
    Text(String),
    /// A whole number, as far as each kind of number holds it
    Integer(Option<u64>, Option<i64>),
    /// A number with a fraction, as it is written
    Real(String),
    Flag(bool),
    List(Vec<Node>),
    Table(Vec<(String, Node)>),
    /// A date, raw bytes or a reference
    Other,
}

/// A property as values.
pub ghost enum Property {
    Text(Seq<char>),
    Integer(Option<u64>, Option<i64>),
    Real(Seq<char>),
    Flag(bool),
    List(Seq<Property>),
    Table(Seq<(Seq<char>, Property)>),
    Other,
}

impl Node {
    /// The property as values.
    pub open spec fn view(&self) -> Property
        decreases self,
    {
        match self {
            Node::Text(s) => Property::Text(s@),
            Node::Integer(u, i) => Property::Integer(*u, *i),
            Node::Real(s) => Property::Real(s@),
            Node::Flag(b) => Property::Flag(*b),
            Node::List(list) => Property::List(
                Seq::new(
                    list@.len(),
                    |i: int|
                        if 0 <= i < list@.len() {
                            list@[i].view()
                        } else {
                            Property::Other
                        },
                ),
            ),
            Node::Table(table) => Property::Table(
                Seq::new(
                    table@.len(),
                    |i: int|
                        if 0 <= i < table@.len() {
                            (table@[i].0@, table@[i].1.view())
                        } else {
                            (Seq::empty(), Property::Other)
                        },
                ),
            ),
            Node::Other => Property::Other,
        }
    }
}

/// The entries of a table as values.
pub open spec fn table_view(table: Seq<(String, Node)>) -> Seq<(Seq<char>, Property)> {
    Seq::new(table.len(), |i: int| (table[i].0@, table[i].1@))
}

/// The items of a list as values.
pub open spec fn list_view(list: Seq<Node>) -> Seq<Property> {
    Seq::new(list.len(), |i: int| list[i]@)
}

proof fn lemma_views(node: &Node)
    ensures
        node is Table ==> node@ == Property::Table(table_view(node->Table_0@)),
        node is List ==> node@ == Property::List(list_view(node->List_0@)),
{
    match node {
        Node::Table(table) => {
            assert(node@->Table_0 =~= table_view(table@));
        },
        Node::List(list) => {
            assert(node@->List_0 =~= list_view(list@));
        },
        _ => {},
    }
}

/// The property of that name in a table.
pub open spec fn property_in(table: Seq<(Seq<char>, Property)>, key: Seq<char>) -> Option<Property>
    decreases table.len(),
{
    if table.len() == 0 {
        None
    } else if table[0].0 == key {
        Some(table[0].1)
    } else {
        property_in(table.drop_first(), key)
    }
}

/// The table that is the property of that name.
pub open spec fn table_in(table: Seq<(Seq<char>, Property)>, key: Seq<char>) -> Option<
    Seq<(Seq<char>, Property)>,
> {
    match property_in(table, key) {
        Some(Property::Table(t)) => Some(t),
        _ => None,
    }
}

/// The list that is the property of that name.
pub open spec fn list_in(table: Seq<(Seq<char>, Property)>, key: Seq<char>) -> Option<
    Seq<Property>,
> {
    match property_in(table, key) {
        Some(Property::List(l)) => Some(l),
        _ => None,
    }
}

/// The number that is the property of that name, where it is not negative.
pub open spec fn number_in(table: Seq<(Seq<char>, Property)>, key: Seq<char>) -> Option<u64> {
    match property_in(table, key) {
        Some(Property::Integer(Some(u), _)) => Some(u),
        Some(Property::Integer(None, Some(v))) => if v >= 0 {
            Some(v as u64)
        } else {
            None
        },
        _ => None,
    }
}

/// Whole percents in millionths, kept to the range of the type.
pub open spec fn whole_percent(v: int) -> i64 {
    let m = v * UNIT;
    if m > i64::MAX {
        i64::MAX
    } else if m < i64::MIN {
        i64::MIN
    } else {
        m as i64
    }
}

/// The percentage that is the property of that name, in millionths.
pub open spec fn percent_in(table: Seq<(Seq<char>, Property)>, key: Seq<char>) -> Option<i64> {
    match property_in(table, key) {
        Some(Property::Integer(Some(u), _)) => Some(whole_percent(u as int)),
        Some(Property::Integer(None, Some(v))) => Some(whole_percent(v as int)),
        Some(Property::Real(s)) => match reading_of(s) {
            Some(Reading::Millionths(m)) => Some(m),
            _ => None,
        },
        _ => None,
    }
}

/// The text that is the property of that name, where it is not empty.
pub open spec fn text_in(table: Seq<(Seq<char>, Property)>, key: Seq<char>) -> Option<Seq<char>> {
    match property_in(table, key) {
        Some(Property::Text(s)) => if s.len() > 0 {
            Some(s)
        } else {
            None
        },
        _ => None,
    }
}

/// The truth value that is the property of that name.
pub open spec fn flag_in(table: Seq<(Seq<char>, Property)>, key: Seq<char>) -> Option<bool> {
    match property_in(table, key) {
        Some(Property::Flag(b)) => Some(b),
        _ => None,
    }
}

/// Finds the property of that name.
fn find<'a>(table: &'a Vec<(String, Node)>, key: &str) -> (r: Option<&'a Node>)
    ensures
        r is Some == property_in(table_view(table@), key@) is Some,
        r is Some ==> r->0@ == property_in(table_view(table@), key@)->0,
{
    let ghost all = table_view(table@);
    let mut k: usize = 0;
    assert(all.skip(0) =~= all);
    while k < table.len()
        invariant
            k <= table@.len(),
            all == table_view(table@),
            property_in(all, key@) == property_in(all.skip(k as int), key@),
        decreases table@.len() - k,
    {
        assert(all.skip(k as int).drop_first() =~= all.skip(k as int + 1));
        assert(all.skip(k as int)[0] == (table@[k as int].0@, table@[k as int].1@));
        if same_text(table[k].0.as_str(), key) {
            return Some(&table[k].1);
        }
        k += 1;
    }
    None
}

/// Finds the table of that name.
fn find_table<'a>(table: &'a Vec<(String, Node)>, key: &str) -> (r: Option<&'a Vec<(String, Node)>>)
    ensures
        r is Some == table_in(table_view(table@), key@) is Some,
        r is Some ==> table_view(r->0@) == table_in(table_view(table@), key@)->0,
{
    match find(table, key) {
        Some(node) => {
            proof {
                lemma_views(node);
            }
            match node {
                Node::Table(t) => Some(t),
                _ => None,
            }
        },
        None => None,
    }
}

/// Finds the list of that name.
fn find_list<'a>(table: &'a Vec<(String, Node)>, key: &str) -> (r: Option<&'a Vec<Node>>)
    ensures
        r is Some == list_in(table_view(table@), key@) is Some,
        r is Some ==> list_view(r->0@) == list_in(table_view(table@), key@)->0,
{
    match find(table, key) {
        Some(node) => {
            proof {
                lemma_views(node);
            }
            match node {
                Node::List(l) => Some(l),
                _ => None,
            }
        },
        None => None,
    }
}

/// The number of that name.
pub fn u64_of(table: &Vec<(String, Node)>, key: &str) -> (r: Option<u64>)
    ensures
        r == number_in(table_view(table@), key@),
{
    match find(table, key) {
        Some(Node::Integer(Some(u), _)) => Some(*u),
        Some(Node::Integer(None, Some(v))) => if *v >= 0 {
            Some(*v as u64)
        } else {
            None
        },
        _ => None,
    }
}

/// Whole percents in millionths.
fn to_percent(v: i128) -> (r: i64)
    requires
        -0x8000_0000_0000_0000 <= v <= 0xffff_ffff_ffff_ffff,
    ensures
        r == whole_percent(v as int),
{
    let m: i128 = v * UNIT as i128;
    if m > i64::MAX as i128 {
        i64::MAX
    } else if m < i64::MIN as i128 {
        i64::MIN
    } else {
        m as i64
    }
}

/// The percentage of that name.
pub fn percent_of(table: &Vec<(String, Node)>, key: &str) -> (r: Option<i64>)
    ensures
        r == percent_in(table_view(table@), key@),
{
    match find(table, key) {
        Some(Node::Integer(Some(u), _)) => Some(to_percent(*u as i128)),
        Some(Node::Integer(None, Some(v))) => Some(to_percent(*v as i128)),
        Some(Node::Real(s)) => match read_number(&chars_of(s.as_str())) {
            Some(Reading::Millionths(m)) => Some(m),
            _ => None,
        },
        _ => None,
    }
}

/// The text of that name, where it is not empty.
pub fn string_of(table: &Vec<(String, Node)>, key: &str) -> (r: Option<String>)
    ensures
        r is Some == text_in(table_view(table@), key@) is Some,
        r is Some ==> r->0@ == text_in(table_view(table@), key@)->0,
{
    match find(table, key) {
        Some(Node::Text(s)) => if s.as_str().is_empty() {
            None
        } else {
            Some(s.clone())
        },
        _ => None,
    }
}

/// A graphics processor's sample. Percentages are in millionths.
#[derive(Debug, Clone, PartialEq, Eq)]
pub struct GpuSample {
    pub name: String,
    pub cores: Option<u32>,
    pub utilization_percent: i64,
    pub renderer_utilization_percent: Option<i64>,
    pub tiler_utilization_percent: Option<i64>,
    pub memory_in_use_bytes: Option<u64>,
    pub memory_allocated_bytes: Option<u64>,
}

/// A graphics processor's sample as values.
pub ghost struct GpuView {
    pub name: Seq<char>,
    pub cores: Option<u32>,
    pub utilization_percent: i64,
    pub renderer_utilization_percent: Option<i64>,
    pub tiler_utilization_percent: Option<i64>,
    pub memory_in_use_bytes: Option<u64>,
    pub memory_allocated_bytes: Option<u64>,
}

impl View for GpuSample {
    type V = GpuView;

    open spec fn view(&self) -> GpuView {
        GpuView {
            name: self.name@,
            cores: self.cores,
            utilization_percent: self.utilization_percent,
            renderer_utilization_percent: self.renderer_utilization_percent,
            tiler_utilization_percent: self.tiler_utilization_percent,
            memory_in_use_bytes: self.memory_in_use_bytes,
            memory_allocated_bytes: self.memory_allocated_bytes,
        }
    }
}

/// A number that fits 32 bits.
pub open spec fn fitting(n: Option<u64>) -> Option<u32> {
    match n {
        Some(n) => if n <= u32::MAX {
            Some(n as u32)
        } else {
            None
        },
        None => None,
    }
}

/// The graphics processor that an entry describes: one that publishes its
/// utilisation.
pub open spec fn gpu_of(entry: Property) -> Option<GpuView> {
    match entry {
        Property::Table(node) => match table_in(node, "PerformanceStatistics"@) {
            Some(stats) => match percent_in(stats, "Device Utilization %"@) {
                Some(utilization_percent) => Some(
                    GpuView {
                        name: match text_in(node, "model"@) {
                            Some(name) => name,
                            None => match text_in(node, "IORegistryEntryName"@) {
                                Some(name) => name,
                                None => "GPU"@,
                            },
                        },
                        cores: fitting(number_in(node, "gpu-core-count"@)),
                        utilization_percent,
                        renderer_utilization_percent: percent_in(
                            stats,
                            "Renderer Utilization %"@,
                        ),
                        tiler_utilization_percent: percent_in(stats, "Tiler Utilization %"@),
                        memory_in_use_bytes: number_in(stats, "In use system memory"@),
                        memory_allocated_bytes: number_in(stats, "Alloc system memory"@),
                    },
                ),
                None => None,
            },
            None => None,
        },
        _ => None,
    }
}

/// The graphics processors among the entries.
pub open spec fn gpus_among(entries: Seq<Property>) -> Seq<GpuView>
    decreases entries.len(),
{
    if entries.len() == 0 {
        Seq::empty()
    } else {
        let rest = gpus_among(entries.drop_last());
        match gpu_of(entries.last()) {
            Some(gpu) => rest.push(gpu),
            None => rest,
        }
    }
}

/// The entries at the root of a property list.
pub open spec fn roots_in(root: Property) -> Seq<Property> {
    match root {
        Property::List(entries) => entries,
        _ => Seq::empty(),
    }
}

/// The samples as values.
pub open spec fn gpu_views(s: Seq<GpuSample>) -> Seq<GpuView> {
    s.map_values(|g: GpuSample| g@)
}

/// The graphics processor that an entry describes.
fn read_gpu(entry: &Node) -> (r: Option<GpuSample>)
    ensures
        r is Some == gpu_of(entry@) is Some,
        r is Some ==> r->0@ == gpu_of(entry@)->0,
{
    proof {
        lemma_views(entry);
    }
    let node = match entry {
        Node::Table(node) => node,
        _ => {
            return None;
        },
    };
    let stats = match find_table(node, "PerformanceStatistics") {
        Some(stats) => stats,
        None => {
            return None;
        },
    };
    let utilization_percent: i64 = match percent_of(stats, "Device Utilization %") {
        Some(percent) => percent,
        None => {
            return None;
        },
    };
    let name = match string_of(node, "model") {
        Some(name) => name,
        None => match string_of(node, "IORegistryEntryName") {
            Some(name) => name,
            None => "GPU".to_owned(),
        },
    };
    let cores: Option<u32> = match u64_of(node, "gpu-core-count") {
        Some(n) => if n <= u32::MAX as u64 {
            Some(n as u32)
        } else {
            None
        },
        None => None,
    };
    Some(
        GpuSample {
            name,
            cores,
            utilization_percent,
            renderer_utilization_percent: percent_of(stats, "Renderer Utilization %"),
            tiler_utilization_percent: percent_of(stats, "Tiler Utilization %"),
            memory_in_use_bytes: u64_of(stats, "In use system memory"),
            memory_allocated_bytes: u64_of(stats, "Alloc system memory"),
        },
    )
}

/// The graphics processors of a property list.
pub fn parse_gpus(root: &Node) -> (r: Vec<GpuSample>)
    ensures
        gpu_views(r@) == gpus_among(roots_in(root@)),
{
    let mut out: Vec<GpuSample> = Vec::new();
    assert(gpu_views(out@) =~= Seq::empty());
    proof {
        lemma_views(root);
    }
    let entries = match root {
        Node::List(entries) => entries,
        _ => {
            return out;
        },
    };
    let ghost all = list_view(entries@);
    for i in 0..entries.len()
        invariant
            all == list_view(entries@),
            gpu_views(out@) == gpus_among(all.take(i as int)),
    {
        assert(all.take(i as int + 1).drop_last() =~= all.take(i as int));
        assert(all[i as int] == entries@[i as int]@);
        if let Some(gpu) = read_gpu(&entries[i]) {
            let ghost was = out@;
            out.push(gpu);
            assert(gpu_views(out@) =~= gpu_views(was).push(gpu@));
        }
    }
    assert(all.take(all.len() as int) =~= all);
    out
}

/// A drive's counters since boot, and what the drive is.
#[derive(Debug, Clone, PartialEq, Eq)]
pub struct DriveCounters {
    /// The name of the whole disk
    pub name: String,
    pub model: Option<String>,
    pub size_bytes: Option<u64>,
    pub is_removable: bool,
    pub read_ops: u64,
    pub write_ops: u64,
    pub read_bytes: u64,
    pub write_bytes: u64,
    /// Service time of completed operations, added up
    pub read_time_ns: u64,
    pub write_time_ns: u64,
    pub read_errors: u64,
    pub write_errors: u64,
}

/// A drive's counters as values.
pub ghost struct DriveView {
    pub name: Seq<char>,
    pub model: Option<Seq<char>>,
    pub size_bytes: Option<u64>,
    pub is_removable: bool,
    pub read_ops: u64,
    pub write_ops: u64,
    pub read_bytes: u64,
    pub write_bytes: u64,
    pub read_time_ns: u64,
    pub write_time_ns: u64,
    pub read_errors: u64,
    pub write_errors: u64,
}

impl View for DriveCounters {
    type V = DriveView;

    open spec fn view(&self) -> DriveView {
        DriveView {
            name: self.name@,
            model: super::processes::text_view(self.model),
            size_bytes: self.size_bytes,
            is_removable: self.is_removable,
            read_ops: self.read_ops,
            write_ops: self.write_ops,
            read_bytes: self.read_bytes,
            write_bytes: self.write_bytes,
            read_time_ns: self.read_time_ns,
            write_time_ns: self.write_time_ns,
            read_errors: self.read_errors,
            write_errors: self.write_errors,
        }
    }
}

/// The first table with that key among the children.
pub open spec fn child_with(children: Seq<Property>, key: Seq<char>) -> Option<
    Seq<(Seq<char>, Property)>,
>
    decreases children.len(),
{
    if children.len() == 0 {
        None
    } else if children[0] is Table && property_in(children[0]->Table_0, key) is Some {
        Some(children[0]->Table_0)
    } else {
        child_with(children.drop_first(), key)
    }
}

/// A number that counts from zero where it is missing.
pub open spec fn count_in(table: Seq<(Seq<char>, Property)>, key: Seq<char>) -> u64 {
    match number_in(table, key) {
        Some(n) => n,
        None => 0,
    }
}

/// A medium's name without its last word; nothing where it is empty.
pub open spec fn model_of(name: Option<Seq<char>>) -> Option<Seq<char>> {
    match name {
        Some(n) => {
            let short = if n.len() >= 6 && n.skip(n.len() - 6) == " Media"@ {
                n.take(n.len() - 6)
            } else {
                n
            };
            if short.len() > 0 {
                Some(short)
            } else {
                None
            }
        },
        None => None,
    }
}

/// The drive that an entry describes: one with statistics and a medium that has a
/// name.
pub open spec fn drive_of(entry: Property) -> Option<DriveView> {
    match entry {
        Property::Table(driver) => {
            let stats = table_in(driver, "Statistics"@);
            let children = list_in(driver, "IORegistryEntryChildren"@);
            if stats is None || children is None {
                None
            } else {
                match child_with(children->0, "BSD Name"@) {
                    None => None,
                    Some(media) => match text_in(media, "BSD Name"@) {
                        None => None,
                        Some(name) => Some(
                            DriveView {
                                name,
                                model: model_of(text_in(media, "IORegistryEntryName"@)),
                                size_bytes: number_in(media, "Size"@),
                                is_removable: flag_in(media, "Removable"@) == Some(true),
                                read_ops: count_in(stats->0, "Operations (Read)"@),
                                write_ops: count_in(stats->0, "Operations (Write)"@),
                                read_bytes: count_in(stats->0, "Bytes (Read)"@),
                                write_bytes: count_in(stats->0, "Bytes (Write)"@),
                                read_time_ns: count_in(stats->0, "Total Time (Read)"@),
                                write_time_ns: count_in(stats->0, "Total Time (Write)"@),
                                read_errors: count_in(stats->0, "Errors (Read)"@),
                                write_errors: count_in(stats->0, "Errors (Write)"@),
                            },
                        ),
                    },
                }
            }
        },
        _ => None,
    }
}

/// The drives among the entries.
pub open spec fn drives_among(entries: Seq<Property>) -> Seq<DriveView>
    decreases entries.len(),
{
    if entries.len() == 0 {
        Seq::empty()
    } else {
        let rest = drives_among(entries.drop_last());
        match drive_of(entries.last()) {
            Some(drive) => rest.push(drive),
            None => rest,
        }
    }
}

/// The drives as values.
pub open spec fn drive_views(s: Seq<DriveCounters>) -> Seq<DriveView> {
    s.map_values(|d: DriveCounters| d@)
}

/// Finds the first table with that key among the children.
fn find_child<'a>(children: &'a Vec<Node>, key: &str) -> (r: Option<&'a Vec<(String, Node)>>)
    ensures
        r is Some == child_with(list_view(children@), key@) is Some,
        r is Some ==> table_view(r->0@) == child_with(list_view(children@), key@)->0,
{
    let ghost all = list_view(children@);
    let mut k: usize = 0;
    assert(all.skip(0) =~= all);
    while k < children.len()
        invariant
            k <= children@.len(),
            all == list_view(children@),
            child_with(all, key@) == child_with(all.skip(k as int), key@),
        decreases children@.len() - k,
    {
        assert(all.skip(k as int).drop_first() =~= all.skip(k as int + 1));
        assert(all.skip(k as int)[0] == children@[k as int]@);
        proof {
            lemma_views(&children@[k as int]);
        }
        if let Node::Table(t) = &children[k] {
            if find(t, key).is_some() {
                return Some(t);
            }
        }
        k += 1;
    }
    None
}

/// A number that counts from zero where it is missing.
fn count_of(table: &Vec<(String, Node)>, key: &str) -> (r: u64)
    ensures
        r == count_in(table_view(table@), key@),
{
    match u64_of(table, key) {
        Some(n) => n,
        None => 0,
    }
}

/// A medium's name without its last word.
fn short_model(name: Option<String>) -> (r: Option<String>)
    ensures
        super::processes::text_view(r) == model_of(super::processes::text_view(name)),
{
    let name = match name {
        Some(name) => chars_of(name.as_str()),
        None => {
            return None;
        },
    };
    let ending = chars_of(" Media");
    let n: usize = name.len();
    proof {
        reveal_strlit(" Media");
    }
    let mut to: usize = n;
    if n >= 6 {
        let tail = part(&name, n - 6, n);
        assert(tail@ =~= name@.skip(n - 6));
        if same_chars(&tail, &ending) {
            to = n - 6;
        }
    }
    let short = part(&name, 0, to);
    assert(short@ =~= name@.take(to as int));
    assert(name@.take(n as int) =~= name@);
    if short.len() == 0 {
        None
    } else {
        Some(crate::text::string_of(&short))
    }
}

/// The drive that an entry describes.
fn read_drive(entry: &Node) -> (r: Option<DriveCounters>)
    ensures
        r is Some == drive_of(entry@) is Some,
        r is Some ==> r->0@ == drive_of(entry@)->0,
{
    proof {
        lemma_views(entry);
    }
    let driver = match entry {
        Node::Table(driver) => driver,
        _ => {
            return None;
        },
    };
    let stats = match find_table(driver, "Statistics") {
        Some(stats) => stats,
        None => {
            return None;
        },
    };
    let children = match find_list(driver, "IORegistryEntryChildren") {
        Some(children) => children,
        None => {
            return None;
        },
    };
    let media = match find_child(children, "BSD Name") {
        Some(media) => media,
        None => {
            return None;
        },
    };
    let name = match string_of(media, "BSD Name") {
        Some(name) => name,
        None => {
            return None;
        },
    };
    let is_removable: bool = match find(media, "Removable") {
        Some(Node::Flag(b)) => *b,
        _ => false,
    };
    Some(
        DriveCounters {
            name,
            model: short_model(string_of(media, "IORegistryEntryName")),
            size_bytes: u64_of(media, "Size"),
            is_removable,
            read_ops: count_of(stats, "Operations (Read)"),
            write_ops: count_of(stats, "Operations (Write)"),
            read_bytes: count_of(stats, "Bytes (Read)"),
            write_bytes: count_of(stats, "Bytes (Write)"),
            read_time_ns: count_of(stats, "Total Time (Read)"),
            write_time_ns: count_of(stats, "Total Time (Write)"),
            read_errors: count_of(stats, "Errors (Read)"),
            write_errors: count_of(stats, "Errors (Write)"),
        },
    )
}

/// The drives of a property list.
pub fn parse_drives(root: &Node) -> (r: Vec<DriveCounters>)
    ensures
        drive_views(r@) == drives_among(roots_in(root@)),
{
    let mut out: Vec<DriveCounters> = Vec::new();
    assert(drive_views(out@) =~= Seq::empty());
    proof {
        lemma_views(root);
    }
    let entries = match root {
        Node::List(entries) => entries,
        _ => {
            return out;
        },
    };
    let ghost all = list_view(entries@);
    for i in 0..entries.len()
        invariant
            all == list_view(entries@),
            drive_views(out@) == drives_among(all.take(i as int)),
    {
        assert(all.take(i as int + 1).drop_last() =~= all.take(i as int));
        assert(all[i as int] == entries@[i as int]@);
        if let Some(drive) = read_drive(&entries[i]) {
            let ghost was = out@;
            out.push(drive);
            assert(drive_views(out@) =~= drive_views(was).push(drive@));
        }
    }
    assert(all.take(all.len() as int) =~= all);
    out
}

/// What `plist` reads from the bytes of a property list.
pub uninterp spec fn property_list(bytes: Seq<u8>) -> Option<Property>;

/// The property as values, where there is one.
pub open spec fn node_view(node: Option<Node>) -> Option<Property> {
    match node {
        Some(n) => Some(n@),
        None => None,
    }
}

/// A value of `plist`.
#[verifier::external_type_specification]
#[verifier::external_body]
pub struct ExValue(plist::Value);

/// One `plist::Value`, variant by variant, as a property of this library. It calls
/// itself for each level of the value; `read_property_list` bounds the levels.
#[verifier::external_body]
fn node_of(value: plist::Value) -> Node {
    match value {
        plist::Value::String(s) => Node::Text(s),
        plist::Value::Integer(n) => Node::Integer(n.as_unsigned(), n.as_signed()),
        plist::Value::Real(x) => Node::Real(x.to_string()),
        plist::Value::Boolean(b) => Node::Flag(b),
        plist::Value::Array(list) => Node::List(list.into_iter().map(node_of).collect()),
        plist::Value::Dictionary(d) => {
            Node::Table(d.into_iter().map(|(k, v)| (k, node_of(v))).collect())
        },
        plist::Value::Data(_) => Node::Other,
        plist::Value::Date(_) => Node::Other,
        _ => Node::Other,
    }
}

/// Reads a property list with `plist::Value::from_reader`. The result depends on
/// the bytes alone; nothing is said of which bytes are a property list and what
/// it holds. A date that its time zone takes out of the calendar, or that the
/// system's clock cannot count, makes the reader panic; every level of a list takes
/// room on the stack; and the parts of a binary list can stand for each other
/// without measure. All three are left out.
#[verifier::external_body]
fn read_property_list(bytes: &Vec<u8>) -> (r: Option<Node>)
    requires
        readable(bytes@),
    ensures
        node_view(r) == property_list(bytes@),
{
    plist::Value::from_reader(std::io::Cursor::new(bytes.as_slice())).ok().map(node_of)
}

/// The graphics processors in the registry's output; nothing where it is no
/// property list, or one that cannot be read without harm.
pub fn gpus(output: &Vec<u8>) -> (r: Option<Vec<GpuSample>>)
    ensures
        r is Some == (readable(output@) && property_list(output@) is Some),
        r is Some ==> gpu_views(r->0@) == gpus_among(roots_in(property_list(output@)->0)),
{
    if !is_readable(output) {
        return None;
    }
    match read_property_list(output) {
        Some(root) => Some(parse_gpus(&root)),
        None => None,
    }
}

/// The drives in the registry's output; nothing where it is no property list, or
/// one that cannot be read without harm.
pub fn drives(output: &Vec<u8>) -> (r: Option<Vec<DriveCounters>>)
    ensures
        r is Some == (readable(output@) && property_list(output@) is Some),
        r is Some ==> drive_views(r->0@) == drives_among(roots_in(property_list(output@)->0)),
{
    if !is_readable(output) {
        return None;
    }
    match read_property_list(output) {
        Some(root) => Some(parse_drives(&root)),
        None => None,
    }
}

/// Whether a table says a property of a key: the first entry of the key has it.
pub open spec fn says(
    table: Seq<(Seq<char>, Property)>,
    key: Seq<char>,
    property: Property,
) -> bool {
    exists|i: int|
        0 <= i < table.len() && (#[trigger] table[i]).0 == key && table[i].1 == property && (
        forall|j: int| 0 <= j < i ==> (#[trigger] table[j]).0 != key)
}

/// Whether a table says nothing of a key.
pub open spec fn is_silent(table: Seq<(Seq<char>, Property)>, key: Seq<char>) -> bool {
    forall|j: int| 0 <= j < table.len() ==> (#[trigger] table[j]).0 != key
}

/// What a table says of a key is what is found.
proof fn lemma_says(table: Seq<(Seq<char>, Property)>, key: Seq<char>) -> (k: int)
    ensures
        0 <= k <= table.len(),
        forall|j: int| 0 <= j < k ==> (#[trigger] table[j]).0 != key,
        k < table.len() ==> table[k].0 == key && property_in(table, key) == Some(table[k].1),
        k == table.len() ==> property_in(table, key) is None,
    decreases table.len(),
{
    if table.len() == 0 || table[0].0 == key {
        0
    } else {
        let rest = table.drop_first();
        let k = lemma_says(rest, key);
        assert forall|j: int| 0 <= j < k + 1 implies (#[trigger] table[j]).0 != key by {
            if j > 0 {
                assert(rest[j - 1] == table[j]);
            }
        }
        k + 1
    }
}

/// What is found of a key is the one property that the table says of it.
pub proof fn law_a_table_says_one_thing(
    table: Seq<(Seq<char>, Property)>,
    key: Seq<char>,
    property: Property,
)
    ensures
        says(table, key, property) <==> property_in(table, key) == Some(property),
        is_silent(table, key) <==> property_in(table, key) is None,
{
    let k = lemma_says(table, key);
    if says(table, key, property) {
        let i = choose|i: int|
            0 <= i < table.len() && (#[trigger] table[i]).0 == key && table[i].1 == property && (
            forall|j: int| 0 <= j < i ==> (#[trigger] table[j]).0 != key);
        if k < i {
            assert(table[k].0 != key);
        }
    }
}

/// A number that a table says of a key.
pub open spec fn says_number(table: Seq<(Seq<char>, Property)>, key: Seq<char>, n: u64) -> bool {
    exists|v: Option<i64>| #[trigger] says(table, key, Property::Integer(Some(n), v))
}

/// The number is found.
proof fn lemma_number(table: Seq<(Seq<char>, Property)>, key: Seq<char>, n: u64)
    ensures
        says_number(table, key, n) ==> number_in(table, key) == Some(n),
        is_silent(table, key) ==> number_in(table, key) is None,
{
    law_a_table_says_one_thing(table, key, Property::Integer(Some(n), None));
    if says_number(table, key, n) {
        let v = choose|v: Option<i64>| #[trigger] says(table, key, Property::Integer(Some(n), v));
        law_a_table_says_one_thing(table, key, Property::Integer(Some(n), v));
    }
}

/// A drive has the name of its medium and the counters that its statistics say, each
/// under its own key, and zero where they are silent.
pub proof fn law_counters_of_a_drive(
    driver: Seq<(Seq<char>, Property)>,
    stats: Seq<(Seq<char>, Property)>,
    children: Seq<Property>,
    media: Seq<(Seq<char>, Property)>,
    name: Seq<char>,
    n: u64,
)
    requires
        says(driver, "Statistics"@, Property::Table(stats)),
        says(driver, "IORegistryEntryChildren"@, Property::List(children)),
        children.len() > 0,
        children[0] == Property::Table(media),
        says(media, "BSD Name"@, Property::Text(name)),
        name.len() > 0,
    ensures
        ({
            let d = drive_of(Property::Table(driver));
            &&& d is Some
            &&& d->0.name == name
            &&& d->0.is_removable <==> says(media, "Removable"@, Property::Flag(true))
            &&& says_number(media, "Size"@, n) ==> d->0.size_bytes == Some(n)
            &&& is_silent(media, "Size"@) ==> d->0.size_bytes is None
            &&& says_number(stats, "Operations (Read)"@, n) ==> d->0.read_ops == n
            &&& is_silent(stats, "Operations (Read)"@) ==> d->0.read_ops == 0
            &&& says_number(stats, "Operations (Write)"@, n) ==> d->0.write_ops == n
            &&& is_silent(stats, "Operations (Write)"@) ==> d->0.write_ops == 0
            &&& says_number(stats, "Bytes (Read)"@, n) ==> d->0.read_bytes == n
            &&& is_silent(stats, "Bytes (Read)"@) ==> d->0.read_bytes == 0
            &&& says_number(stats, "Bytes (Write)"@, n) ==> d->0.write_bytes == n
            &&& is_silent(stats, "Bytes (Write)"@) ==> d->0.write_bytes == 0
            &&& says_number(stats, "Total Time (Read)"@, n) ==> d->0.read_time_ns == n
            &&& is_silent(stats, "Total Time (Read)"@) ==> d->0.read_time_ns == 0
            &&& says_number(stats, "Total Time (Write)"@, n) ==> d->0.write_time_ns == n
            &&& is_silent(stats, "Total Time (Write)"@) ==> d->0.write_time_ns == 0
            &&& says_number(stats, "Errors (Read)"@, n) ==> d->0.read_errors == n
            &&& is_silent(stats, "Errors (Read)"@) ==> d->0.read_errors == 0
            &&& says_number(stats, "Errors (Write)"@, n) ==> d->0.write_errors == n
            &&& is_silent(stats, "Errors (Write)"@) ==> d->0.write_errors == 0
        }),
{
    law_a_table_says_one_thing(driver, "Statistics"@, Property::Table(stats));
    law_a_table_says_one_thing(driver, "IORegistryEntryChildren"@, Property::List(children));
    law_a_table_says_one_thing(media, "BSD Name"@, Property::Text(name));
    law_a_table_says_one_thing(media, "Removable"@, Property::Flag(true));
    lemma_number(media, "Size"@, n);
    lemma_number(stats, "Operations (Read)"@, n);
    lemma_number(stats, "Operations (Write)"@, n);
    lemma_number(stats, "Bytes (Read)"@, n);
    lemma_number(stats, "Bytes (Write)"@, n);
    lemma_number(stats, "Total Time (Read)"@, n);
    lemma_number(stats, "Total Time (Write)"@, n);
    lemma_number(stats, "Errors (Read)"@, n);
    lemma_number(stats, "Errors (Write)"@, n);
}

/// A graphics processor is an entry whose statistics say its utilisation, in whole
/// percents or as a number with a fraction. Its other figures are those said under
/// their own keys.
pub proof fn law_figures_of_a_gpu(
    node: Seq<(Seq<char>, Property)>,
    stats: Seq<(Seq<char>, Property)>,
    percent: u32,
    n: u64,
    name: Seq<char>,
)
    requires
        says(node, "PerformanceStatistics"@, Property::Table(stats)),
    ensures
        ({
            let g = gpu_of(Property::Table(node));
            let p = percent as int * 1_000_000;
            let whole = Property::Integer(Some(percent as u64), Some(percent as i64));
            &&& says(stats, "Device Utilization %"@, whole) ==> g is Some
                && g->0.utilization_percent == p
            &&& is_silent(stats, "Device Utilization %"@) ==> g is None
            &&& g is Some && says(stats, "Renderer Utilization %"@, whole)
                ==> g->0.renderer_utilization_percent is Some
                && g->0.renderer_utilization_percent->0 == p
            &&& g is Some && says(stats, "Tiler Utilization %"@, whole)
                ==> g->0.tiler_utilization_percent is Some && g->0.tiler_utilization_percent->0
                == p
            &&& g is Some && says_number(stats, "In use system memory"@, n)
                ==> g->0.memory_in_use_bytes == Some(n)
            &&& g is Some && says_number(stats, "Alloc system memory"@, n)
                ==> g->0.memory_allocated_bytes == Some(n)
            &&& g is Some && says_number(node, "gpu-core-count"@, n) && n <= 0xffff_ffff
                ==> g->0.cores is Some && g->0.cores->0 == n
            &&& g is Some && name.len() > 0 && says(node, "model"@, Property::Text(name))
                ==> g->0.name == name
        }),
{
    let whole = Property::Integer(Some(percent as u64), Some(percent as i64));
    law_a_table_says_one_thing(node, "PerformanceStatistics"@, Property::Table(stats));
    law_a_table_says_one_thing(stats, "Device Utilization %"@, whole);
    law_a_table_says_one_thing(stats, "Renderer Utilization %"@, whole);
    law_a_table_says_one_thing(stats, "Tiler Utilization %"@, whole);
    law_a_table_says_one_thing(node, "model"@, Property::Text(name));
    lemma_number(stats, "In use system memory"@, n);
    lemma_number(stats, "Alloc system memory"@, n);
    lemma_number(node, "gpu-core-count"@, n);
}

/// Every entry that describes a graphics processor is one, and every entry that
/// describes a drive is one, in the order of the entries; no other is. What is no
/// list has no entries.
pub proof fn law_every_entry_counts(entries: Seq<Property>)
    ensures
        gpus_among(entries) == entries.filter(|e: Property| gpu_of(e) is Some).map_values(
            |e: Property| gpu_of(e)->0,
        ),
        drives_among(entries) == entries.filter(|e: Property| drive_of(e) is Some).map_values(
            |e: Property| drive_of(e)->0,
        ),
        roots_in(Property::List(entries)) == entries,
    decreases entries.len(),
{
    reveal(Seq::filter);
    let gpus = entries.filter(|e: Property| gpu_of(e) is Some);
    let drives = entries.filter(|e: Property| drive_of(e) is Some);
    if entries.len() > 0 {
        let rest = entries.drop_last();
        law_every_entry_counts(rest);
        let few = rest.filter(|e: Property| gpu_of(e) is Some);
        let fewer = rest.filter(|e: Property| drive_of(e) is Some);
        if gpu_of(entries.last()) is Some {
            assert(gpus =~= few.push(entries.last()));
            assert(gpus.map_values(|e: Property| gpu_of(e)->0) =~= few.map_values(
                |e: Property| gpu_of(e)->0,
            ).push(gpu_of(entries.last())->0));
        }
        if drive_of(entries.last()) is Some {
            assert(drives =~= fewer.push(entries.last()));
            assert(drives.map_values(|e: Property| drive_of(e)->0) =~= fewer.map_values(
                |e: Property| drive_of(e)->0,
            ).push(drive_of(entries.last())->0));
        }
    } else {
        assert(gpus_among(entries) =~= gpus.map_values(|e: Property| gpu_of(e)->0));
        assert(drives_among(entries) =~= drives.map_values(|e: Property| drive_of(e)->0));
    }
}

} // verus!
