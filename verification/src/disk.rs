//! Checks that file systems have room left.

use crate::config::{DiskConfig, DiskConfigView};
use crate::health::{ComponentDetails, ComponentDetailsView, ComponentHealth, ComponentHealthView};
use crate::status;
use crate::status::Status;
use crate::text;
use vstd::prelude::*;

verus! {

/// What the operating system says of a file system, as `statvfs` fills it in.
#[derive(Debug, Clone, Copy, PartialEq, Eq, Structural)]
pub struct FilesystemStats {
    /// The size of a block, or zero where only `f_bsize` is given.
    pub f_frsize: u64,
    /// The preferred size of a transfer.
    pub f_bsize: u64,
    /// The number of blocks.
    pub f_blocks: u64,
    /// The number of blocks that unprivileged users may still use.
    pub f_bavail: u64,
}

/// What kept the usage of a file system from being known.
#[derive(Debug, Clone, Copy, PartialEq, Eq, Structural)]
pub enum UsageErrorKind {
    /// The path cannot be handed to the operating system.
    InvalidInput,
    /// The operating system gave sizes that make no sense.
    InvalidData,
    /// The operating system gave no answer.
    System,
}

/// Why the usage of a file system is not known.
#[derive(Debug, Clone)]
pub struct UsageError {
    pub kind: UsageErrorKind,
    pub message: String,
}

/// The report on one path.
#[derive(Debug, Clone)]
pub struct DiskCheck {
    pub path: String,
    pub status: Status,
    pub total_bytes: Option<u64>,
    pub available_bytes: Option<u64>,
    pub percent_remaining: Option<u8>,
    pub threshold: u8,
    pub error: Option<String>,
}

/// The reports on all paths.
#[derive(Debug, Clone)]
pub struct DiskDetails {
    pub disks: Vec<DiskCheck>,
}

/// The paths to look at, each with the percentage that has to be exceeded.
pub struct DiskHealthCheck {
    pub disks: Vec<DiskConfig>,
}

#[verifier::ext_equal]
pub struct DiskCheckView {
    pub path: Seq<char>,
    pub status: Status,
    pub total_bytes: Option<u64>,
    pub available_bytes: Option<u64>,
    pub percent_remaining: Option<u8>,
    pub threshold: u8,
    pub error: Option<Seq<char>>,
}

impl View for DiskCheck {
    type V = DiskCheckView;

    open spec fn view(&self) -> DiskCheckView {
        DiskCheckView {
            path: self.path@,
            status: self.status,
            total_bytes: self.total_bytes,
            available_bytes: self.available_bytes,
            percent_remaining: self.percent_remaining,
            threshold: self.threshold,
            error: text::option_view(self.error),
        }
    }
}

impl View for UsageError {
    type V = (UsageErrorKind, Seq<char>);

    open spec fn view(&self) -> (UsageErrorKind, Seq<char>) {
        (self.kind, self.message@)
    }
}

/// `n`, or the largest number of 64 bits where `n` is larger.
pub open spec fn saturated(n: int) -> u64 {
    if n > u64::MAX {
        u64::MAX
    } else {
        n as u64
    }
}

impl FilesystemStats {
    pub open spec fn block_size(self) -> u64 {
        if self.f_frsize != 0 {
            self.f_frsize
        } else {
            self.f_bsize
        }
    }

    pub open spec fn total_bytes(self) -> u64 {
        saturated(self.f_blocks * self.block_size())
    }

    pub open spec fn available_bytes(self) -> u64 {
        saturated(self.f_bavail * self.block_size())
    }

    /// The available share in percent, rounded down and kept to eight bits.
    pub open spec fn percent_remaining(self) -> u8 {
        (saturated(self.available_bytes() * 100) as nat / self.total_bytes() as nat % 256) as u8
    }
}

/// The total size, the available size and the available share of a file
/// system, or the reason why they are not known.
pub open spec fn disk_usage(
    path: Seq<char>,
    stats: Result<FilesystemStats, Seq<char>>,
) -> Result<(u64, u64, u8), (UsageErrorKind, Seq<char>)> {
    if path.contains('\0') {
        Err((UsageErrorKind::InvalidInput, "path contains nul byte"@))
    } else {
        match stats {
            Err(reason) => Err((UsageErrorKind::System, reason)),
            Ok(stats) => if stats.total_bytes() == 0 {
                Err((UsageErrorKind::InvalidData, "filesystem reports zero total bytes"@))
            } else {
                Ok((stats.total_bytes(), stats.available_bytes(), stats.percent_remaining()))
            },
        }
    }
}

/// The report on one path: it is up where the available share exceeds the
/// threshold.
pub open spec fn disk_report(
    disk: DiskConfigView,
    stats: Result<FilesystemStats, Seq<char>>,
) -> DiskCheckView {
    match disk_usage(disk.path, stats) {
        Ok((total, available, percent)) => DiskCheckView {
            path: disk.path,
            status: if percent <= disk.threshold {
                Status::Down
            } else {
                Status::Up
            },
            total_bytes: Some(total),
            available_bytes: Some(available),
            percent_remaining: Some(percent),
            threshold: disk.threshold,
            error: None,
        },
        Err((_, reason)) => DiskCheckView {
            path: disk.path,
            status: Status::Down,
            total_bytes: None,
            available_bytes: None,
            percent_remaining: None,
            threshold: disk.threshold,
            error: Some(reason),
        },
    }
}

/// The view of what the operating system said, or of why it did not.
pub open spec fn stats_view(stats: Result<FilesystemStats, String>) -> Result<
    FilesystemStats,
    Seq<char>,
> {
    match stats {
        Ok(stats) => Ok(stats),
        Err(reason) => Err(reason@),
    }
}

/// The views of what the operating system said.
pub open spec fn stats_views(stats: Seq<Result<FilesystemStats, String>>) -> Seq<
    Result<FilesystemStats, Seq<char>>,
> {
    Seq::new(stats.len(), |i: int| stats_view(stats[i]))
}

/// The report on all of `disks`, given what the operating system says of them.
pub open spec fn disk_component(
    disks: Seq<DiskConfigView>,
    stats: Seq<Result<FilesystemStats, Seq<char>>>,
) -> ComponentHealthView {
    let reports = Seq::new(disks.len(), |i: int| disk_report(disks[i], stats[i]));
    ComponentHealthView {
        status: status::combined(Seq::new(disks.len(), |i: int| reports[i].status)),
        details: ComponentDetailsView::Disk(reports),
    }
}

fn saturating_product(left: u64, right: u64) -> (product: u64)
    ensures
        product == saturated(left * right),
{
    match left.checked_mul(right) {
        Some(product) => product,
        None => u64::MAX,
    }
}

fn has_nul(path: &str) -> (found: bool)
    ensures
        found == path@.contains('\0'),
{
    let chars = text::chars_of(path);
    let mut i: usize = 0;
    while i < chars.len()
        invariant
            i <= chars@.len(),
            chars@ == path@,
            forall|j: int| 0 <= j < i ==> chars@[j] != '\0',
        decreases chars@.len() - i,
    {
        if chars[i] == '\0' {
            return true;
        }
        i += 1;
    }
    false
}

/// The total size, the available size and the available share in percent of
/// the file system at `path`, given what the operating system says of it.
pub fn disk_usage_percent_remaining(path: &str, stats: Result<FilesystemStats, String>) -> (usage:
    Result<(u64, u64, u8), UsageError>)
    ensures
        match usage {
            Ok(sizes) => disk_usage(path@, stats_view(stats)) == Ok::<
                (u64, u64, u8),
                (UsageErrorKind, Seq<char>),
            >(sizes),
            Err(error) => disk_usage(path@, stats_view(stats)) == Err::<
                (u64, u64, u8),
                (UsageErrorKind, Seq<char>),
            >(error@),
        },
{
    if has_nul(path) {
        return Err(
            UsageError {
                kind: UsageErrorKind::InvalidInput,
                message: "path contains nul byte".to_owned(),
            },
        );
    }
    let stats = match stats {
        Ok(stats) => stats,
        Err(reason) => {
            return Err(UsageError { kind: UsageErrorKind::System, message: reason });
        },
    };
    let block_size: u64 = if stats.f_frsize != 0 {
        stats.f_frsize
    } else {
        stats.f_bsize
    };
    let total_bytes: u64 = saturating_product(stats.f_blocks, block_size);
    let available_bytes: u64 = saturating_product(stats.f_bavail, block_size);
    if total_bytes == 0 {
        return Err(
            UsageError {
                kind: UsageErrorKind::InvalidData,
                message: "filesystem reports zero total bytes".to_owned(),
            },
        );
    }
    let percent: u64 = saturating_product(available_bytes, 100) / total_bytes;
    assert(percent as u8 == percent % 256) by (bit_vector);
    let percent_remaining: u8 = #[verifier::truncate]
    (percent as u8);
    Ok((total_bytes, available_bytes, percent_remaining))
}

/// The report on one path, given what the operating system says of it.
pub fn check_disk(disk: &DiskConfig, stats: Result<FilesystemStats, String>) -> (report: DiskCheck)
    ensures
        report@ == disk_report(disk@, stats_view(stats)),
{
    match disk_usage_percent_remaining(disk.path.as_str(), stats) {
        Ok((total_bytes, available_bytes, percent_remaining)) => DiskCheck {
            path: disk.path.clone(),
            status: if percent_remaining <= disk.threshold {
                Status::Down
            } else {
                Status::Up
            },
            total_bytes: Some(total_bytes),
            available_bytes: Some(available_bytes),
            percent_remaining: Some(percent_remaining),
            threshold: disk.threshold,
            error: None,
        },
        Err(error) => DiskCheck {
            path: disk.path.clone(),
            status: Status::Down,
            total_bytes: None,
            available_bytes: None,
            percent_remaining: None,
            threshold: disk.threshold,
            error: Some(error.message),
        },
    }
}

impl DiskHealthCheck {
    /// The check of the configured paths.
    pub fn new(config: &[DiskConfig]) -> (check: DiskHealthCheck)
        ensures
            text::views(check.disks@) == text::views(config@),
    {
        let mut disks: Vec<DiskConfig> = Vec::new();
        let mut i: usize = 0;
        while i < config.len()
            invariant
                i <= config@.len(),
                disks@.len() == i,
                forall|j: int| 0 <= j < i ==> (#[trigger] disks@[j])@ == config@[j]@,
            decreases config@.len() - i,
        {
            disks.push(DiskConfig { path: config[i].path.clone(), threshold: config[i].threshold });
            i += 1;
        }
        assert(text::views(disks@) =~= text::views(config@));
        DiskHealthCheck { disks }
    }

    /// The report on all the paths, given what the operating system says of
    /// each.
    pub fn check(&self, stats: Vec<Result<FilesystemStats, String>>) -> (component: ComponentHealth)
        requires
            stats@.len() == self.disks@.len(),
        ensures
            component@ == disk_component(text::views(self.disks@), stats_views(stats@)),
    {
        let ghost all = stats@;
        let mut reports: Vec<DiskCheck> = Vec::new();
        let mut parts: Vec<Status> = Vec::new();
        let mut i: usize = 0;
        let count = self.disks.len();
        for answer in it: stats
            invariant
                it.seq() == all,
                i == it.index(),
                all.len() == count == self.disks@.len(),
                reports@.len() == i,
                parts@.len() == i,
                forall|j: int|
                    0 <= j < i ==> (#[trigger] reports@[j])@ == disk_report(
                        self.disks@[j]@,
                        stats_view(all[j]),
                    ),
                forall|j: int| 0 <= j < i ==> parts@[j] == (#[trigger] reports@[j]).status,
        {
            let report = check_disk(&self.disks[i], answer);
            parts.push(report.status);
            reports.push(report);
            i += 1;
        }
        proof {
            let expected = disk_component(text::views(self.disks@), stats_views(all));
            assert(text::views(reports@) =~= expected.details->Disk_0);
            assert(parts@ =~= Seq::new(count as nat, |j: int| expected.details->Disk_0[j].status));
        }
        ComponentHealth {
            status: status::combine(parts.as_slice()),
            details: ComponentDetails::Disk(DiskDetails { disks: reports }),
        }
    }
}

/// No more than a hundred percent is left of a file system that has no more
/// space left than it has in all.
pub proof fn law_at_most_everything_remains(stats: FilesystemStats)
    requires
        stats.f_bavail <= stats.f_blocks,
        stats.total_bytes() > 0,
    ensures
        stats.available_bytes() <= stats.total_bytes(),
        stats.percent_remaining() <= 100,
        stats.percent_remaining() == saturated(stats.available_bytes() * 100) as nat
            / stats.total_bytes() as nat,
{
    let available = stats.available_bytes() as int;
    let total = stats.total_bytes() as int;
    assert(stats.f_bavail * stats.block_size() <= stats.f_blocks * stats.block_size())
        by (nonlinear_arith)
        requires
            stats.f_bavail <= stats.f_blocks,
            0 <= stats.block_size(),
    ;
    let scaled = saturated(available * 100) as int;
    assert(scaled <= 100 * total);
    assert(scaled / total <= 100) by (nonlinear_arith)
        requires
            0 <= scaled <= 100 * total,
            0 < total,
    ;
    assert(0 <= scaled / total) by (nonlinear_arith)
        requires
            0 <= scaled,
            0 < total,
    ;
}

/// A threshold of a hundred percent or more is never exceeded.
pub proof fn law_full_threshold_is_down(disk: DiskConfigView, stats: FilesystemStats)
    requires
        stats.f_bavail <= stats.f_blocks,
        disk.threshold >= 100,
    ensures
        disk_report(disk, Ok(stats)).status == Status::Down,
{
    if stats.total_bytes() > 0 {
        law_at_most_everything_remains(stats);
    }
}

/// Lowering a threshold never brings a path down.
pub proof fn law_lower_threshold_stays_up(
    path: Seq<char>,
    higher: u8,
    lower: u8,
    stats: Result<FilesystemStats, Seq<char>>,
)
    requires
        lower <= higher,
        disk_report(DiskConfigView { path, threshold: higher }, stats).status == Status::Up,
    ensures
        disk_report(DiskConfigView { path, threshold: lower }, stats).status == Status::Up,
{
}

/// A report shows the sizes or an error, never both, and what it shows is up
/// only with the sizes.
pub proof fn law_report_shows_sizes_or_error(
    disk: DiskConfigView,
    stats: Result<FilesystemStats, Seq<char>>,
)
    ensures
        ({
            let report = disk_report(disk, stats);
            &&& report.path == disk.path
            &&& report.threshold == disk.threshold
            &&& report.error is None <==> report.total_bytes is Some
            &&& report.error is None <==> report.available_bytes is Some
            &&& report.error is None <==> report.percent_remaining is Some
            &&& report.status == Status::Up <==> (report.percent_remaining matches Some(percent)
                && percent > disk.threshold)
        }),
{
}

/// The views of a report, of an error and of answers show all that is in them.
pub proof fn law_views_show_everything(
    report: DiskCheck,
    error: UsageError,
    answers: Seq<Result<FilesystemStats, String>>,
    i: int,
)
    requires
        0 <= i < answers.len(),
    ensures
        report@.path == report.path@,
        report@.status == report.status,
        report@.total_bytes == report.total_bytes,
        report@.available_bytes == report.available_bytes,
        report@.percent_remaining == report.percent_remaining,
        report@.threshold == report.threshold,
        report.error is None <==> report@.error is None,
        report.error matches Some(reason) ==> report@.error == Some(reason@),
        error@ == (error.kind, error.message@),
        stats_views(answers).len() == answers.len(),
        answers[i] matches Ok(stats) ==> stats_views(answers)[i] == Ok::<
            FilesystemStats,
            Seq<char>,
        >(stats),
        answers[i] matches Err(reason) ==> stats_views(answers)[i] == Err::<
            FilesystemStats,
            Seq<char>,
        >(reason@),
{
}

/// The sizes are the numbers of blocks times the size of a block, which is
/// `f_frsize` unless that is zero. A product that does not fit in 64 bits gives
/// the largest number that does.
pub proof fn law_sizes_are_products(stats: FilesystemStats)
    ensures
        ({
            let block = if stats.f_frsize == 0 {
                stats.f_bsize as int
            } else {
                stats.f_frsize as int
            };
            let total = stats.f_blocks * block;
            let available = stats.f_bavail * block;
            &&& total <= 0xffff_ffff_ffff_ffff ==> stats.total_bytes() == total
            &&& total > 0xffff_ffff_ffff_ffff ==> stats.total_bytes() == 0xffff_ffff_ffff_ffff
            &&& available <= 0xffff_ffff_ffff_ffff ==> stats.available_bytes() == available
            &&& available > 0xffff_ffff_ffff_ffff ==> stats.available_bytes()
                == 0xffff_ffff_ffff_ffff
        }),
{
    let block = stats.block_size() as int;
    assert(stats.f_blocks * block >= 0) by (nonlinear_arith)
        requires
            block >= 0,
    ;
    assert(stats.f_bavail * block >= 0) by (nonlinear_arith)
        requires
            block >= 0,
    ;
}

/// The share that remains is a hundred times the available size, as far as that
/// fits in 64 bits, over the total size; of this eight bits are kept.
pub proof fn law_share_is_a_quotient(stats: FilesystemStats)
    requires
        stats.total_bytes() > 0,
    ensures
        stats.available_bytes() * 100 <= 0xffff_ffff_ffff_ffff ==> stats.percent_remaining() == (
        stats.available_bytes() as int * 100) / (stats.total_bytes() as int) % 256,
        stats.available_bytes() * 100 > 0xffff_ffff_ffff_ffff ==> stats.percent_remaining()
            == 0xffff_ffff_ffff_ffffint / (stats.total_bytes() as int) % 256,
{
}

/// Where nothing exceeds 64 bits, the share that remains is that of the blocks.
pub proof fn law_share_is_that_of_the_blocks(stats: FilesystemStats)
    requires
        stats.f_blocks > 0,
        stats.f_bavail <= stats.f_blocks,
        stats.f_frsize > 0 || stats.f_bsize > 0,
        ({
            let block = if stats.f_frsize == 0 {
                stats.f_bsize as int
            } else {
                stats.f_frsize as int
            };
            stats.f_blocks * block <= 0xffff_ffff_ffff_ffff && stats.f_bavail * block * 100
                <= 0xffff_ffff_ffff_ffff
        }),
    ensures
        stats.percent_remaining() == stats.f_bavail * 100 / (stats.f_blocks as int),
        stats.percent_remaining() <= 100,
{
    let block = stats.block_size() as int;
    let blocks = stats.f_blocks as int;
    let free = stats.f_bavail as int;
    assert(blocks * block > 0) by (nonlinear_arith)
        requires
            blocks > 0,
            block > 0,
    ;
    assert(free * block >= 0) by (nonlinear_arith)
        requires
            free >= 0,
            block > 0,
    ;
    law_sizes_are_products(stats);
    law_share_is_a_quotient(stats);
    assert(free * block * 100 == block * (free * 100)) by (nonlinear_arith);
    assert(blocks * block == block * blocks) by (nonlinear_arith);
    vstd::arithmetic::div_mod::lemma_div_multiples_vanish_quotient(block, free * 100, blocks);
    assert(free * 100 / blocks <= 100) by (nonlinear_arith)
        requires
            0 <= free <= blocks,
            blocks > 0,
    ;
    assert(0 <= free * 100 / blocks) by (nonlinear_arith)
        requires
            0 <= free,
            blocks > 0,
    ;
}

/// A path with a nul byte is an invalid input, whatever was answered for it.
/// Without an answer the reason is passed on; a total size of zero is invalid.
/// Anything else is the usage that the answer shows.
pub proof fn law_usage(path: Seq<char>, stats: FilesystemStats, reason: Seq<char>)
    ensures
        path.contains('\0') ==> {
            &&& disk_usage(path, Ok(stats)) == Err::<(u64, u64, u8), (UsageErrorKind, Seq<char>)>(
                (UsageErrorKind::InvalidInput, "path contains nul byte"@),
            )
            &&& disk_usage(path, Err(reason)) == disk_usage(path, Ok(stats))
        },
        !path.contains('\0') ==> {
            &&& disk_usage(path, Err(reason)) == Err::<
                (u64, u64, u8),
                (UsageErrorKind, Seq<char>),
            >((UsageErrorKind::System, reason))
            &&& stats.total_bytes() == 0 ==> disk_usage(path, Ok(stats)) == Err::<
                (u64, u64, u8),
                (UsageErrorKind, Seq<char>),
            >((UsageErrorKind::InvalidData, "filesystem reports zero total bytes"@))
            &&& stats.total_bytes() > 0 ==> disk_usage(path, Ok(stats)) == Ok::<
                (u64, u64, u8),
                (UsageErrorKind, Seq<char>),
            >((stats.total_bytes(), stats.available_bytes(), stats.percent_remaining()))
        },
{
}

/// A report shows the usage, and is up exactly where the share that remains
/// exceeds the threshold; or it shows the reason why there is none, and is
/// down.
pub proof fn law_reports_show_the_usage(
    disk: DiskConfigView,
    stats: Result<FilesystemStats, Seq<char>>,
)
    ensures
        disk_usage(disk.path, stats) matches Ok(usage) ==> disk_report(disk, stats) == (
        DiskCheckView {
            path: disk.path,
            status: if usage.2 > disk.threshold {
                Status::Up
            } else {
                Status::Down
            },
            total_bytes: Some(usage.0),
            available_bytes: Some(usage.1),
            percent_remaining: Some(usage.2),
            threshold: disk.threshold,
            error: None,
        }),
        disk_usage(disk.path, stats) matches Err(error) ==> disk_report(disk, stats) == (
        DiskCheckView {
            path: disk.path,
            status: Status::Down,
            total_bytes: None,
            available_bytes: None,
            percent_remaining: None,
            threshold: disk.threshold,
            error: Some(error.1),
        }),
{
}

/// The component reports on each path in its place, and is up exactly where
/// every path is.
pub proof fn law_up_means_every_disk_is_up(
    disks: Seq<DiskConfigView>,
    stats: Seq<Result<FilesystemStats, Seq<char>>>,
)
    requires
        stats.len() == disks.len(),
    ensures
        ({
            let component = disk_component(disks, stats);
            let reports = component.details->Disk_0;
            &&& component.details is Disk
            &&& reports.len() == disks.len()
            &&& forall|i: int|
                0 <= i < disks.len() ==> #[trigger] reports[i] == disk_report(disks[i], stats[i])
            &&& component.status == Status::Up <==> forall|i: int|
                0 <= i < reports.len() ==> (#[trigger] reports[i]).status == Status::Up
        }),
{
    let component = disk_component(disks, stats);
    let reports = component.details->Disk_0;
    let statuses = Seq::new(disks.len(), |i: int| reports[i].status);
    status::law_up_means_all_parts_up(statuses);
    if component.status == Status::Up {
        assert forall|i: int| 0 <= i < reports.len() implies (#[trigger] reports[i]).status
            == Status::Up by {
            assert(statuses[i] == Status::Up);
        }
    }
    if forall|i: int| 0 <= i < reports.len() ==> (#[trigger] reports[i]).status == Status::Up {
        assert forall|i: int| 0 <= i < statuses.len() implies #[trigger] statuses[i]
            == Status::Up by {
            assert(reports[i].status == Status::Up);
        }
    }
}

/// Where the operating system answered for every path and nothing exceeds 64
/// bits, the component is up exactly where on every path the share of available
/// blocks, in whole percent, exceeds the threshold.
pub proof fn law_up_means_room_on_every_disk(
    disks: Seq<DiskConfigView>,
    stats: Seq<FilesystemStats>,
    answers: Seq<Result<FilesystemStats, Seq<char>>>,
)
    requires
        stats.len() == disks.len(),
        answers.len() == disks.len(),
        forall|i: int|
            0 <= i < stats.len() ==> #[trigger] answers[i] == Ok::<FilesystemStats, Seq<char>>(
                stats[i],
            ),
        forall|i: int| 0 <= i < disks.len() ==> !(#[trigger] disks[i]).path.contains('\0'),
        forall|i: int|
            0 <= i < stats.len() ==> {
                &&& (#[trigger] stats[i]).f_blocks > 0
                &&& stats[i].f_bavail <= stats[i].f_blocks
                &&& stats[i].f_frsize > 0
                &&& stats[i].f_blocks * stats[i].f_frsize <= 0xffff_ffff_ffff_ffff
                &&& stats[i].f_bavail * stats[i].f_frsize * 100 <= 0xffff_ffff_ffff_ffff
            },
    ensures
        disk_component(disks, answers).status == Status::Up <==> forall|i: int|
            0 <= i < stats.len() ==> (#[trigger] stats[i]).f_bavail * 100 / (
            stats[i].f_blocks as int) > disks[i].threshold,
{
    law_up_means_every_disk_is_up(disks, answers);
    let component = disk_component(disks, answers);
    let reports = component.details->Disk_0;
    assert forall|i: int| 0 <= i < stats.len() implies ((#[trigger] reports[i]).status
        == Status::Up <==> stats[i].f_bavail * 100 / (stats[i].f_blocks as int)
        > disks[i].threshold) by {
        let answer = stats[i];
        assert(answers[i] == Ok::<FilesystemStats, Seq<char>>(answer));
        assert(!disks[i].path.contains('\0'));
        law_share_is_that_of_the_blocks(answer);
        law_sizes_are_products(answer);
        assert(answer.f_blocks * answer.f_frsize > 0) by (nonlinear_arith)
            requires
                answer.f_blocks > 0,
                answer.f_frsize > 0,
        ;
        law_usage(disks[i].path, answer, Seq::empty());
        law_reports_show_the_usage(disks[i], answers[i]);
    }
    if component.status == Status::Up {
        assert forall|i: int| 0 <= i < stats.len() implies (#[trigger] stats[i]).f_bavail * 100 / (
        stats[i].f_blocks as int) > disks[i].threshold by {
            assert(reports[i].status == Status::Up);
        }
    }
    if forall|i: int|
        0 <= i < stats.len() ==> (#[trigger] stats[i]).f_bavail * 100 / (stats[i].f_blocks as int)
            > disks[i].threshold {
        assert forall|i: int| 0 <= i < reports.len() implies (#[trigger] reports[i]).status
            == Status::Up by {
            assert(stats[i].f_bavail * 100 / (stats[i].f_blocks as int) > disks[i].threshold);
        }
    }
}

} // verus!
