//! The builtin thresholds, by name, in the order of the names with letter case
//! left aside.
use vstd::prelude::*;
use vstd::string::*;
use crate::overrides::{lemma_less_irreflexive, lemma_less_transitive, text_less};
use crate::text::{lower, lowered};

verus! {

/// A threshold that turns the rule off.
pub const NEVER: i64 = 0;

/// One full core: a hundred percent, in millionths.
pub const ONE_CORE: i64 = 100_000_000;

/// Two full cores.
pub const TWO_CORES: i64 = 200_000_000;

/// Four full cores.
pub const FOUR_CORES: i64 = 400_000_000;

/// Sixty percent of all memory, in millionths.
pub const MOST_OF_MEMORY: i64 = 60_000_000;

/// Processor thresholds of processes that are busy in normal use: a full core
/// for interactive programs, two for indexers and virtual machines, and never
/// for work that its user started.
pub const TEMPLATE_CPU_OVERRIDES: [(&'static str, i64); 99] = [
    ("actool", NEVER),
    ("alacritty", ONE_CORE),
    ("Arc Helper (Renderer)", ONE_CORE),
    ("avconferenced", ONE_CORE),
    ("backupd", NEVER),
    ("Brave Browser Helper (Renderer)", ONE_CORE),
    ("cargo", NEVER),
    ("cc1plus", NEVER),
    ("clang", NEVER),
    ("clang++", NEVER),
    ("clangd", ONE_CORE),
    ("clion", TWO_CORES),
    ("clippy-driver", NEVER),
    ("cmake", NEVER),
    ("Code Helper (Renderer)", ONE_CORE),
    ("com.apple.CoreSimulator.CoreSimulatorService", ONE_CORE),
    ("com.apple.WebKit.GPU", ONE_CORE),
    ("com.apple.WebKit.WebContent", ONE_CORE),
    ("com.docker.backend", TWO_CORES),
    ("com.docker.virtualization", TWO_CORES),
    ("corespotlightd", NEVER),
    ("Cursor Helper (Renderer)", ONE_CORE),
    ("DingTalk", ONE_CORE),
    ("Discord Helper (Renderer)", ONE_CORE),
    ("dsymutil", NEVER),
    ("esbuild", NEVER),
    ("ffmpeg", NEVER),
    ("Figma Helper (Renderer)", ONE_CORE),
    ("Final Cut Pro", NEVER),
    ("firefox", ONE_CORE),
    ("g++", NEVER),
    ("gcc", NEVER),
    ("ghostty", ONE_CORE),
    ("git", NEVER),
    ("go", NEVER),
    ("goland", TWO_CORES),
    ("Google Chrome", ONE_CORE),
    ("Google Chrome Helper (GPU)", ONE_CORE),
    ("Google Chrome Helper (Renderer)", ONE_CORE),
    ("gopls", ONE_CORE),
    ("HandBrake", NEVER),
    ("ibtool", NEVER),
    ("ibtoold", NEVER),
    ("idea", TWO_CORES),
    ("installd", NEVER),
    ("iTerm2", ONE_CORE),
    ("kernel_task", NEVER),
    ("kitty", ONE_CORE),
    ("knowledgeconstructiond", NEVER),
    ("Lark Helper (Renderer)", ONE_CORE),
    ("ld", NEVER),
    ("ld-classic", NEVER),
    ("lld", NEVER),
    ("make", NEVER),
    ("mds", NEVER),
    ("mds_stores", NEVER),
    ("mdworker", NEVER),
    ("mdworker_shared", NEVER),
    ("mediaanalysisd", NEVER),
    ("Microsoft Edge Helper (Renderer)", ONE_CORE),
    ("Microsoft Teams", ONE_CORE),
    ("ninja", NEVER),
    ("Notion Helper (Renderer)", ONE_CORE),
    ("OBS", NEVER),
    ("Obsidian Helper (Renderer)", ONE_CORE),
    ("ollama", NEVER),
    ("OrbStack Helper", TWO_CORES),
    ("parsecd", NEVER),
    ("photoanalysisd", NEVER),
    ("plugin-container", ONE_CORE),
    ("prl_vm_app", TWO_CORES),
    ("qemu-system-aarch64", TWO_CORES),
    ("QQ Helper (Renderer)", ONE_CORE),
    ("rust-analyzer", ONE_CORE),
    ("rustc", NEVER),
    ("rustdoc", NEVER),
    ("Simulator", ONE_CORE),
    ("Slack Helper (Renderer)", ONE_CORE),
    ("softwareupdated", NEVER),
    ("sourcekit-lsp", ONE_CORE),
    ("SourceKitService", TWO_CORES),
    ("Spotify Helper", ONE_CORE),
    ("spotlightknowledged", NEVER),
    ("suggestd", NEVER),
    ("swift-driver", NEVER),
    ("swift-frontend", TWO_CORES),
    ("syspolicyd", NEVER),
    ("TencentMeeting", ONE_CORE),
    ("vmware-vmx", TWO_CORES),
    ("wdavdaemon", NEVER),
    ("WeChat", ONE_CORE),
    ("WeCom Helper (Renderer)", ONE_CORE),
    ("WindowServer", ONE_CORE),
    ("wwmapp", ONE_CORE),
    ("XCBBuildService", TWO_CORES),
    ("Xcode", TWO_CORES),
    ("xcodebuild", NEVER),
    ("XCPreviewAgent", TWO_CORES),
    ("zoom.us", ONE_CORE),
];

/// Processor thresholds of whole applications, by the name of the tree's root.
pub const TEMPLATE_APP_CPU_OVERRIDES: [(&'static str, i64); 25] = [
    ("Arc", FOUR_CORES),
    ("Brave Browser", FOUR_CORES),
    ("clion", FOUR_CORES),
    ("Code", FOUR_CORES),
    ("com.apple.CoreSimulator.CoreSimulatorService", FOUR_CORES),
    ("com.docker.backend", NEVER),
    ("com.docker.virtualization", NEVER),
    ("Cursor", FOUR_CORES),
    ("firefox", FOUR_CORES),
    ("goland", FOUR_CORES),
    ("Google Chrome", FOUR_CORES),
    ("idea", FOUR_CORES),
    ("login", NEVER),
    ("Microsoft Edge", FOUR_CORES),
    ("OrbStack Helper", NEVER),
    ("prl_vm_app", NEVER),
    ("qemu-system-aarch64", NEVER),
    ("Safari", FOUR_CORES),
    ("screen", NEVER),
    ("Simulator", FOUR_CORES),
    ("sshd", NEVER),
    ("tmux", NEVER),
    ("vmware-vmx", NEVER),
    ("Xcode", FOUR_CORES),
    ("zed", FOUR_CORES),
];

/// Memory thresholds of whole applications, as a share of all memory.
pub const TEMPLATE_APP_MEM_OVERRIDES: [(&'static str, i64); 19] = [
    ("Arc", MOST_OF_MEMORY),
    ("Brave Browser", MOST_OF_MEMORY),
    ("com.apple.CoreSimulator.CoreSimulatorService", MOST_OF_MEMORY),
    ("com.docker.backend", NEVER),
    ("com.docker.virtualization", NEVER),
    ("firefox", MOST_OF_MEMORY),
    ("Google Chrome", MOST_OF_MEMORY),
    ("login", NEVER),
    ("Microsoft Edge", MOST_OF_MEMORY),
    ("OrbStack Helper", NEVER),
    ("prl_vm_app", NEVER),
    ("qemu-system-aarch64", NEVER),
    ("Safari", MOST_OF_MEMORY),
    ("screen", NEVER),
    ("Simulator", MOST_OF_MEMORY),
    ("sshd", NEVER),
    ("tmux", NEVER),
    ("vmware-vmx", NEVER),
    ("Xcode", MOST_OF_MEMORY),
];

/// Whether `s` has no star from place `k` on.
pub open spec fn starless(s: Seq<char>, k: nat) -> bool
    decreases s.len() - k,
{
    k >= s.len() || (s[k as int] != '*' && starless(s, k + 1))
}

/// Whether `a` stands before `b` from place `k` on, letter case left aside.
pub open spec fn precedes(a: Seq<char>, b: Seq<char>, k: nat) -> bool
    decreases b.len() - k,
{
    if k >= b.len() {
        false
    } else if k >= a.len() {
        true
    } else if lower(a[k as int]) != lower(b[k as int]) {
        lower(a[k as int]) < lower(b[k as int])
    } else {
        precedes(a, b, k + 1)
    }
}

/// Whether the rows `from..to` of a table have no stars and each stands before
/// the next.
pub open spec fn in_turn(table: Seq<(&str, i64)>, from: nat, to: nat) -> bool
    decreases to - from,
{
    from >= to || {
        &&& starless(table[from as int].0@, 0)
        &&& from + 1 < table.len() ==> precedes(
            table[from as int].0@,
            table[from as int + 1].0@,
            0,
        )
        &&& in_turn(table, from + 1, to)
    }
}

/// Some rows of the table, from number 0 on.
proof fn lemma_cpu_rows_from_0()
    ensures
        in_turn(TEMPLATE_CPU_OVERRIDES@, 0, 10),
{
    reveal_with_fuel(in_turn, 11);
    reveal_with_fuel(precedes, 7);
    reveal_with_fuel(starless, 33);
    reveal_strlit("actool");
    reveal_strlit("alacritty");
    reveal_strlit("Arc Helper (Renderer)");
    reveal_strlit("avconferenced");
    reveal_strlit("backupd");
    reveal_strlit("Brave Browser Helper (Renderer)");
    reveal_strlit("cargo");
    reveal_strlit("cc1plus");
    reveal_strlit("clang");
    reveal_strlit("clang++");
    reveal_strlit("clangd");
}

/// Some rows of the table, from number 10 on.
proof fn lemma_cpu_rows_from_10()
    ensures
        in_turn(TEMPLATE_CPU_OVERRIDES@, 10, 20),
{
    reveal_with_fuel(in_turn, 11);
    reveal_with_fuel(precedes, 19);
    reveal_with_fuel(starless, 46);
    reveal_strlit("clangd");
    reveal_strlit("clion");
    reveal_strlit("clippy-driver");
    reveal_strlit("cmake");
    reveal_strlit("Code Helper (Renderer)");
    reveal_strlit("com.apple.CoreSimulator.CoreSimulatorService");
    reveal_strlit("com.apple.WebKit.GPU");
    reveal_strlit("com.apple.WebKit.WebContent");
    reveal_strlit("com.docker.backend");
    reveal_strlit("com.docker.virtualization");
    reveal_strlit("corespotlightd");
}

/// Some rows of the table, from number 20 on.
proof fn lemma_cpu_rows_from_20()
    ensures
        in_turn(TEMPLATE_CPU_OVERRIDES@, 20, 30),
{
    reveal_with_fuel(in_turn, 11);
    reveal_with_fuel(precedes, 4);
    reveal_with_fuel(starless, 27);
    reveal_strlit("corespotlightd");
    reveal_strlit("Cursor Helper (Renderer)");
    reveal_strlit("DingTalk");
    reveal_strlit("Discord Helper (Renderer)");
    reveal_strlit("dsymutil");
    reveal_strlit("esbuild");
    reveal_strlit("ffmpeg");
    reveal_strlit("Figma Helper (Renderer)");
    reveal_strlit("Final Cut Pro");
    reveal_strlit("firefox");
    reveal_strlit("g++");
}

/// Some rows of the table, from number 30 on.
proof fn lemma_cpu_rows_from_30()
    ensures
        in_turn(TEMPLATE_CPU_OVERRIDES@, 30, 40),
{
    reveal_with_fuel(in_turn, 11);
    reveal_with_fuel(precedes, 24);
    reveal_with_fuel(starless, 33);
    reveal_strlit("g++");
    reveal_strlit("gcc");
    reveal_strlit("ghostty");
    reveal_strlit("git");
    reveal_strlit("go");
    reveal_strlit("goland");
    reveal_strlit("Google Chrome");
    reveal_strlit("Google Chrome Helper (GPU)");
    reveal_strlit("Google Chrome Helper (Renderer)");
    reveal_strlit("gopls");
    reveal_strlit("HandBrake");
}

/// Some rows of the table, from number 40 on.
proof fn lemma_cpu_rows_from_40()
    ensures
        in_turn(TEMPLATE_CPU_OVERRIDES@, 40, 50),
{
    reveal_with_fuel(in_turn, 11);
    reveal_with_fuel(precedes, 8);
    reveal_with_fuel(starless, 24);
    reveal_strlit("HandBrake");
    reveal_strlit("ibtool");
    reveal_strlit("ibtoold");
    reveal_strlit("idea");
    reveal_strlit("installd");
    reveal_strlit("iTerm2");
    reveal_strlit("kernel_task");
    reveal_strlit("kitty");
    reveal_strlit("knowledgeconstructiond");
    reveal_strlit("Lark Helper (Renderer)");
    reveal_strlit("ld");
}

/// Some rows of the table, from number 50 on.
proof fn lemma_cpu_rows_from_50()
    ensures
        in_turn(TEMPLATE_CPU_OVERRIDES@, 50, 60),
{
    reveal_with_fuel(in_turn, 11);
    reveal_with_fuel(precedes, 12);
    reveal_with_fuel(starless, 34);
    reveal_strlit("ld");
    reveal_strlit("ld-classic");
    reveal_strlit("lld");
    reveal_strlit("make");
    reveal_strlit("mds");
    reveal_strlit("mds_stores");
    reveal_strlit("mdworker");
    reveal_strlit("mdworker_shared");
    reveal_strlit("mediaanalysisd");
    reveal_strlit("Microsoft Edge Helper (Renderer)");
    reveal_strlit("Microsoft Teams");
}

/// Some rows of the table, from number 60 on.
proof fn lemma_cpu_rows_from_60()
    ensures
        in_turn(TEMPLATE_CPU_OVERRIDES@, 60, 70),
{
    reveal_with_fuel(in_turn, 11);
    reveal_with_fuel(precedes, 5);
    reveal_with_fuel(starless, 28);
    reveal_strlit("Microsoft Teams");
    reveal_strlit("ninja");
    reveal_strlit("Notion Helper (Renderer)");
    reveal_strlit("OBS");
    reveal_strlit("Obsidian Helper (Renderer)");
    reveal_strlit("ollama");
    reveal_strlit("OrbStack Helper");
    reveal_strlit("parsecd");
    reveal_strlit("photoanalysisd");
    reveal_strlit("plugin-container");
    reveal_strlit("prl_vm_app");
}

/// Some rows of the table, from number 70 on.
proof fn lemma_cpu_rows_from_70()
    ensures
        in_turn(TEMPLATE_CPU_OVERRIDES@, 70, 80),
{
    reveal_with_fuel(in_turn, 11);
    reveal_with_fuel(precedes, 11);
    reveal_with_fuel(starless, 25);
    reveal_strlit("prl_vm_app");
    reveal_strlit("qemu-system-aarch64");
    reveal_strlit("QQ Helper (Renderer)");
    reveal_strlit("rust-analyzer");
    reveal_strlit("rustc");
    reveal_strlit("rustdoc");
    reveal_strlit("Simulator");
    reveal_strlit("Slack Helper (Renderer)");
    reveal_strlit("softwareupdated");
    reveal_strlit("sourcekit-lsp");
    reveal_strlit("SourceKitService");
}

/// Some rows of the table, from number 80 on.
proof fn lemma_cpu_rows_from_80()
    ensures
        in_turn(TEMPLATE_CPU_OVERRIDES@, 80, 90),
{
    reveal_with_fuel(in_turn, 11);
    reveal_with_fuel(precedes, 8);
    reveal_with_fuel(starless, 21);
    reveal_strlit("SourceKitService");
    reveal_strlit("Spotify Helper");
    reveal_strlit("spotlightknowledged");
    reveal_strlit("suggestd");
    reveal_strlit("swift-driver");
    reveal_strlit("swift-frontend");
    reveal_strlit("syspolicyd");
    reveal_strlit("TencentMeeting");
    reveal_strlit("vmware-vmx");
    reveal_strlit("wdavdaemon");
    reveal_strlit("WeChat");
}

/// Some rows of the table, from number 90 on.
proof fn lemma_cpu_rows_from_90()
    ensures
        in_turn(TEMPLATE_CPU_OVERRIDES@, 90, 99),
{
    reveal_with_fuel(in_turn, 10);
    reveal_with_fuel(precedes, 7);
    reveal_with_fuel(starless, 25);
    reveal_strlit("WeChat");
    reveal_strlit("WeCom Helper (Renderer)");
    reveal_strlit("WindowServer");
    reveal_strlit("wwmapp");
    reveal_strlit("XCBBuildService");
    reveal_strlit("Xcode");
    reveal_strlit("xcodebuild");
    reveal_strlit("XCPreviewAgent");
    reveal_strlit("zoom.us");
}

/// Some rows of the table, from number 0 on.
proof fn lemma_app_cpu_rows_from_0()
    ensures
        in_turn(TEMPLATE_APP_CPU_OVERRIDES@, 0, 10),
{
    reveal_with_fuel(in_turn, 11);
    reveal_with_fuel(precedes, 13);
    reveal_with_fuel(starless, 46);
    reveal_strlit("Arc");
    reveal_strlit("Brave Browser");
    reveal_strlit("clion");
    reveal_strlit("Code");
    reveal_strlit("com.apple.CoreSimulator.CoreSimulatorService");
    reveal_strlit("com.docker.backend");
    reveal_strlit("com.docker.virtualization");
    reveal_strlit("Cursor");
    reveal_strlit("firefox");
    reveal_strlit("goland");
    reveal_strlit("Google Chrome");
}

/// Some rows of the table, from number 10 on.
proof fn lemma_app_cpu_rows_from_10()
    ensures
        in_turn(TEMPLATE_APP_CPU_OVERRIDES@, 10, 20),
{
    reveal_with_fuel(in_turn, 11);
    reveal_with_fuel(precedes, 3);
    reveal_with_fuel(starless, 21);
    reveal_strlit("Google Chrome");
    reveal_strlit("idea");
    reveal_strlit("login");
    reveal_strlit("Microsoft Edge");
    reveal_strlit("OrbStack Helper");
    reveal_strlit("prl_vm_app");
    reveal_strlit("qemu-system-aarch64");
    reveal_strlit("Safari");
    reveal_strlit("screen");
    reveal_strlit("Simulator");
    reveal_strlit("sshd");
}

/// Some rows of the table, from number 20 on.
proof fn lemma_app_cpu_rows_from_20()
    ensures
        in_turn(TEMPLATE_APP_CPU_OVERRIDES@, 20, 25),
{
    reveal_with_fuel(in_turn, 6);
    reveal_with_fuel(precedes, 2);
    reveal_with_fuel(starless, 12);
    reveal_strlit("sshd");
    reveal_strlit("tmux");
    reveal_strlit("vmware-vmx");
    reveal_strlit("Xcode");
    reveal_strlit("zed");
}

/// Some rows of the table, from number 0 on.
proof fn lemma_app_mem_rows_from_0()
    ensures
        in_turn(TEMPLATE_APP_MEM_OVERRIDES@, 0, 10),
{
    reveal_with_fuel(in_turn, 11);
    reveal_with_fuel(precedes, 13);
    reveal_with_fuel(starless, 46);
    reveal_strlit("Arc");
    reveal_strlit("Brave Browser");
    reveal_strlit("com.apple.CoreSimulator.CoreSimulatorService");
    reveal_strlit("com.docker.backend");
    reveal_strlit("com.docker.virtualization");
    reveal_strlit("firefox");
    reveal_strlit("Google Chrome");
    reveal_strlit("login");
    reveal_strlit("Microsoft Edge");
    reveal_strlit("OrbStack Helper");
    reveal_strlit("prl_vm_app");
}

/// Some rows of the table, from number 10 on.
proof fn lemma_app_mem_rows_from_10()
    ensures
        in_turn(TEMPLATE_APP_MEM_OVERRIDES@, 10, 19),
{
    reveal_with_fuel(in_turn, 10);
    reveal_with_fuel(precedes, 3);
    reveal_with_fuel(starless, 21);
    reveal_strlit("prl_vm_app");
    reveal_strlit("qemu-system-aarch64");
    reveal_strlit("Safari");
    reveal_strlit("screen");
    reveal_strlit("Simulator");
    reveal_strlit("sshd");
    reveal_strlit("tmux");
    reveal_strlit("vmware-vmx");
    reveal_strlit("Xcode");
}

/// A text without stars does not contain one.
proof fn lemma_starless(s: Seq<char>, k: nat)
    requires
        starless(s, k),
    ensures
        forall|i: int| k <= i < s.len() ==> s[i] != '*',
    decreases s.len() - k,
{
    if k < s.len() {
        lemma_starless(s, k + 1);
    }
}

/// A text that stands before another does so in small letters.
proof fn lemma_precedes(a: Seq<char>, b: Seq<char>, k: nat)
    requires
        precedes(a, b, k),
        k <= a.len(),
    ensures
        text_less(lowered(a).skip(k as int), lowered(b).skip(k as int)),
    decreases b.len() - k,
{
    let x = lowered(a).skip(k as int);
    let y = lowered(b).skip(k as int);
    if k < a.len() && lower(a[k as int]) == lower(b[k as int]) {
        lemma_precedes(a, b, k + 1);
        assert(x.drop_first() =~= lowered(a).skip(k as int + 1));
        assert(y.drop_first() =~= lowered(b).skip(k as int + 1));
    }
}

/// What the rows of a table in turn are like, one by one.
proof fn lemma_rows(table: Seq<(&str, i64)>, from: nat, to: nat)
    requires
        in_turn(table, from, to),
    ensures
        forall|i: int|
            from <= i < to ==> starless((#[trigger] table[i]).0@, 0) && (i + 1 < table.len()
                ==> precedes(table[i].0@, table[i + 1].0@, 0)),
    decreases to - from,
{
    if from < to {
        lemma_rows(table, from + 1, to);
    }
}

/// Rows in turn and the rows after them are in turn together.
proof fn lemma_join(table: Seq<(&str, i64)>, from: nat, middle: nat, to: nat)
    requires
        in_turn(table, from, middle),
        in_turn(table, middle, to),
        from <= middle <= to,
    ensures
        in_turn(table, from, to),
    decreases middle - from,
{
    if from < middle {
        lemma_join(table, from + 1, middle, to);
    }
}

/// Whether the keys of a table have no stars and none is there twice, letter case
/// left aside.
pub open spec fn plain_table(table: Seq<(&str, i64)>) -> bool {
    &&& forall|i: int| 0 <= i < table.len() ==> !(#[trigger] table[i]).0@.contains('*')
    &&& forall|i: int, j: int|
        0 <= i < table.len() && 0 <= j < table.len() && lowered((#[trigger] table[i]).0@) == lowered(
            (#[trigger] table[j]).0@,
        ) ==> i == j
}

/// Of two rows in turn the first stands before the second.
proof fn lemma_earlier_row(table: Seq<(&str, i64)>, i: int, j: int)
    requires
        in_turn(table, 0, table.len()),
        0 <= i < j < table.len(),
    ensures
        text_less(lowered(table[i].0@), lowered(table[j].0@)),
    decreases j - i,
{
    lemma_rows(table, 0, table.len());
    assert(starless(table[j - 1].0@, 0));
    lemma_precedes(table[j - 1].0@, table[j].0@, 0);
    let a = lowered(table[j - 1].0@);
    let b = lowered(table[j].0@);
    assert(a.skip(0) =~= a);
    assert(b.skip(0) =~= b);
    if i < j - 1 {
        lemma_earlier_row(table, i, j - 1);
        lemma_less_transitive(lowered(table[i].0@), a, b);
    }
}

/// The keys of a table in turn are plain.
proof fn lemma_plain(table: Seq<(&str, i64)>)
    requires
        in_turn(table, 0, table.len()),
    ensures
        plain_table(table),
{
    lemma_rows(table, 0, table.len());
    assert forall|i: int| 0 <= i < table.len() implies !(#[trigger] table[i]).0@.contains('*') by {
        lemma_starless(table[i].0@, 0);
    }
    assert forall|i: int, j: int|
        0 <= i < table.len() && 0 <= j < table.len() && lowered((#[trigger] table[i]).0@) == lowered(
            (#[trigger] table[j]).0@,
        ) implies i == j by {
        lemma_less_irreflexive(lowered(table[i].0@));
        if i < j {
            lemma_earlier_row(table, i, j);
        } else if j < i {
            lemma_earlier_row(table, j, i);
        }
    }
}

/// The builtin tables have no family among their keys and no key twice, letter
/// case left aside.
pub proof fn law_builtin_tables_are_plain()
    ensures
        plain_table(TEMPLATE_CPU_OVERRIDES@),
        plain_table(TEMPLATE_APP_CPU_OVERRIDES@),
        plain_table(TEMPLATE_APP_MEM_OVERRIDES@),
{
    lemma_cpu_rows_from_0();
    lemma_cpu_rows_from_10();
    lemma_join(TEMPLATE_CPU_OVERRIDES@, 0, 10, 20);
    lemma_cpu_rows_from_20();
    lemma_join(TEMPLATE_CPU_OVERRIDES@, 0, 20, 30);
    lemma_cpu_rows_from_30();
    lemma_join(TEMPLATE_CPU_OVERRIDES@, 0, 30, 40);
    lemma_cpu_rows_from_40();
    lemma_join(TEMPLATE_CPU_OVERRIDES@, 0, 40, 50);
    lemma_cpu_rows_from_50();
    lemma_join(TEMPLATE_CPU_OVERRIDES@, 0, 50, 60);
    lemma_cpu_rows_from_60();
    lemma_join(TEMPLATE_CPU_OVERRIDES@, 0, 60, 70);
    lemma_cpu_rows_from_70();
    lemma_join(TEMPLATE_CPU_OVERRIDES@, 0, 70, 80);
    lemma_cpu_rows_from_80();
    lemma_join(TEMPLATE_CPU_OVERRIDES@, 0, 80, 90);
    lemma_cpu_rows_from_90();
    lemma_join(TEMPLATE_CPU_OVERRIDES@, 0, 90, 99);
    lemma_plain(TEMPLATE_CPU_OVERRIDES@);
    lemma_app_cpu_rows_from_0();
    lemma_app_cpu_rows_from_10();
    lemma_join(TEMPLATE_APP_CPU_OVERRIDES@, 0, 10, 20);
    lemma_app_cpu_rows_from_20();
    lemma_join(TEMPLATE_APP_CPU_OVERRIDES@, 0, 20, 25);
    lemma_plain(TEMPLATE_APP_CPU_OVERRIDES@);
    lemma_app_mem_rows_from_0();
    lemma_app_mem_rows_from_10();
    lemma_join(TEMPLATE_APP_MEM_OVERRIDES@, 0, 10, 19);
    lemma_plain(TEMPLATE_APP_MEM_OVERRIDES@);
}

} // verus!
