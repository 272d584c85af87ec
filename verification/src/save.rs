//! Writing the configuration file: one write at a time, and never half of one.

use crate::config;
use crate::config::{Args, Config, ConfigManager};
use crate::room::Room;
use vstd::prelude::*;

verus! {

/// What is to be done next to write the configuration file.
#[derive(Clone, Copy, Debug, PartialEq, Eq, Structural)]
pub enum WriteStage {
    /// Create the directory of the configuration file.
    CreateDirectory,
    /// Write the new contents to the temporary file.
    WriteTemporary,
    /// Let only the owner read and write the temporary file.
    RestrictAccess,
    /// Rename the temporary file to the configuration file.
    Rename,
    /// The configuration file has the new contents.
    Written,
    /// The configuration file is as it was.
    Failed,
}

/// The permissions of the configuration file.
pub const CONFIG_FILE_MODE: u32 = 0o600;

/// The name of the configuration file.
pub fn config_file_name() -> (res: &'static str)
    ensures
        res@ == "config.toml"@,
{
    "config.toml"
}

/// The name of the file that is written first.
pub fn temporary_file_name() -> (res: &'static str)
    ensures
        res@ == "config.toml.tmp"@,
{
    "config.toml.tmp"
}

impl WriteStage {
    /// Whether the write is over.
    pub open spec fn is_end(self) -> bool {
        self == WriteStage::Written || self == WriteStage::Failed
    }

    /// The name of the file that a stage changes, if it changes one.
    pub open spec fn changed_file(self) -> Option<Seq<char>> {
        match self {
            WriteStage::WriteTemporary => Some("config.toml.tmp"@),
            WriteStage::RestrictAccess => Some("config.toml.tmp"@),
            WriteStage::Rename => Some("config.toml"@),
            _ => None,
        }
    }

    /// The stage that follows. A stage that fails ends the write. Access can be restricted
    /// on Unix alone.
    pub open spec fn following(self, succeeded: bool, unix: bool) -> WriteStage {
        if !succeeded {
            WriteStage::Failed
        } else {
            match self {
                WriteStage::CreateDirectory => WriteStage::WriteTemporary,
                WriteStage::WriteTemporary => if unix {
                    WriteStage::RestrictAccess
                } else {
                    WriteStage::Rename
                },
                WriteStage::RestrictAccess => WriteStage::Rename,
                WriteStage::Rename => WriteStage::Written,
                end => end,
            }
        }
    }

    /// The name of the file that this stage changes, if it changes one.
    pub fn target(&self) -> (res: Option<&'static str>)
        ensures
            match res {
                Some(name) => self.changed_file() == Some(name@),
                None => self.changed_file() is None,
            },
    {
        match self {
            WriteStage::WriteTemporary => Some(temporary_file_name()),
            WriteStage::RestrictAccess => Some(temporary_file_name()),
            WriteStage::Rename => Some(config_file_name()),
            _ => None,
        }
    }
}

/// Whether `config` says what `manager` holds.
pub open spec fn is_snapshot(config: Config, manager: ConfigManager) -> bool {
    &&& config::optional_text(config.bcookie) == Some(manager.bcookie@)
    &&& config::optional_text(config.cookies_from_browser) == Some(manager.cookies_from_browser@)
    &&& config.danmaku_speed == Some(manager.danmaku_speed)
    &&& config.font_alpha_bits == Some(manager.font_alpha_bits)
    &&& config.font_scale_bits == Some(manager.font_scale_bits)
}

impl ConfigManager {
    /// Starts to write the configuration file. The result is what to write, or nothing if
    /// the file is being written already.
    pub fn write_config(&mut self) -> (res: Option<Config>)
        ensures
            match res {
                Some(config) => !old(self).on_writing.is_held() && is_snapshot(config, *old(self)),
                None => old(self).on_writing.is_held(),
            },
            final(self).on_writing.is_held(),
            *final(self) == (ConfigManager { on_writing: final(self).on_writing, ..*old(self) }),
    {
        if self.on_writing.held() {
            return None;
        }
        self.on_writing.set(true);
        Some(
            Config {
                bcookie: Some(self.bcookie.clone()),
                cookies_from_browser: Some(self.cookies_from_browser.clone()),
                danmaku_speed: Some(self.danmaku_speed),
                font_alpha_bits: Some(self.font_alpha_bits),
                font_scale_bits: Some(self.font_scale_bits),
            },
        )
    }

    /// Goes on after a stage of the write has succeeded or failed. The end of the write lets
    /// the next one start.
    pub fn continue_write(&mut self, stage: WriteStage, succeeded: bool, unix: bool) -> (res:
        WriteStage)
        requires
            !stage.is_end(),
        ensures
            res == stage.following(succeeded, unix),
            final(self).on_writing.is_held() == (old(self).on_writing.is_held() && !res.is_end()),
            *final(self) == (ConfigManager { on_writing: final(self).on_writing, ..*old(self) }),
    {
        let next = if !succeeded {
            WriteStage::Failed
        } else {
            match stage {
                WriteStage::CreateDirectory => WriteStage::WriteTemporary,
                WriteStage::WriteTemporary => if unix {
                    WriteStage::RestrictAccess
                } else {
                    WriteStage::Rename
                },
                WriteStage::RestrictAccess => WriteStage::Rename,
                WriteStage::Rename => WriteStage::Written,
                WriteStage::Written => WriteStage::Written,
                WriteStage::Failed => WriteStage::Failed,
            }
        };
        if next == WriteStage::Written || next == WriteStage::Failed {
            self.on_writing.set(false);
        }
        next
    }
}

/// The stage that a write is in after its stages had the given outcomes.
pub open spec fn stage_after(outcomes: Seq<bool>, unix: bool) -> WriteStage
    decreases outcomes.len(),
{
    if outcomes.len() == 0 {
        WriteStage::CreateDirectory
    } else {
        stage_after(outcomes.drop_last(), unix).following(outcomes.last(), unix)
    }
}

/// The configuration file is changed by the renaming alone, and that is done only after the
/// new contents were written to the temporary file and, on Unix, its access was restricted,
/// and nothing failed.
pub proof fn law_config_file_is_replaced_whole(outcomes: Seq<bool>, unix: bool)
    requires
        stage_after(outcomes, unix).changed_file() == Some("config.toml"@),
    ensures
        stage_after(outcomes, unix) == WriteStage::Rename,
        forall|i: int| 0 <= i < outcomes.len() ==> #[trigger] outcomes[i],
        stage_after(outcomes.take(1), unix) == WriteStage::WriteTemporary,
        unix ==> outcomes.len() == 3 && stage_after(outcomes.take(2), unix)
            == WriteStage::RestrictAccess,
        !unix ==> outcomes.len() == 2,
{
    reveal_strlit("config.toml");
    reveal_strlit("config.toml.tmp");
    assert("config.toml"@.len() != "config.toml.tmp"@.len());
    assert(stage_after(outcomes, unix) == WriteStage::Rename);
    reveal_with_fuel(stage_after, 5);
    let one = outcomes.drop_last();
    assert(stage_after(one, unix) == WriteStage::RestrictAccess || stage_after(one, unix)
        == WriteStage::WriteTemporary);
    let two = one.drop_last();
    assert(one.len() > 0);
    if unix {
        let three = two.drop_last();
        assert(stage_after(two, unix) == WriteStage::WriteTemporary);
        assert(two.len() > 0);
        assert(stage_after(three, unix) == WriteStage::CreateDirectory);
        lemma_only_start_creates(three, unix);
        assert(outcomes.take(1) == two);
        assert(outcomes.take(2) == one);
        assert(outcomes[0] == two.last() && outcomes[1] == one.last() && outcomes[2]
            == outcomes.last());
    } else {
        lemma_no_restriction(one);
        assert(stage_after(two, unix) == WriteStage::CreateDirectory);
        lemma_only_start_creates(two, unix);
        assert(outcomes.take(1) == one);
        assert(outcomes[0] == one.last() && outcomes[1] == outcomes.last());
    }
}

proof fn lemma_only_start_creates(outcomes: Seq<bool>, unix: bool)
    requires
        stage_after(outcomes, unix) == WriteStage::CreateDirectory,
    ensures
        outcomes.len() == 0,
{
}

proof fn lemma_no_restriction(outcomes: Seq<bool>)
    ensures
        stage_after(outcomes, false) != WriteStage::RestrictAccess,
    decreases outcomes.len(),
{
    if outcomes.len() > 0 {
        lemma_no_restriction(outcomes.drop_last());
    }
}

/// What is written to the configuration file is what the next run finds there: its cookie,
/// its browser, its speed and its fonts are those of the run that wrote it.
pub proof fn law_written_settings_read_back(
    manager: ConfigManager,
    config: Config,
    next: ConfigManager,
    args: Args,
    target: Room,
)
    requires
        is_snapshot(config, manager),
        next.is_made_of(config, args, target),
    ensures
        next.bcookie@ == manager.bcookie@,
        next.cookies_from_browser@ == manager.cookies_from_browser@,
        next.danmaku_speed == manager.danmaku_speed,
        next.font_alpha_bits == manager.font_alpha_bits,
        next.font_scale_bits == manager.font_scale_bits,
{
}

/// How many stages a write can still go through.
pub open spec fn stages_left(stage: WriteStage) -> nat {
    match stage {
        WriteStage::CreateDirectory => 4,
        WriteStage::WriteTemporary => 3,
        WriteStage::RestrictAccess => 2,
        WriteStage::Rename => 1,
        WriteStage::Written => 0,
        WriteStage::Failed => 0,
    }
}

/// A write ends, whatever fails: each stage brings it closer to its end.
pub proof fn law_write_ends(stage: WriteStage, succeeded: bool, unix: bool)
    requires
        !stage.is_end(),
    ensures
        stages_left(stage.following(succeeded, unix)) < stages_left(stage),
        stages_left(stage) > 0,
{
}

/// A write whose stages all succeed creates the directory, writes the temporary file,
/// restricts its access where that is possible, renames it, and is then over.
pub proof fn law_stages_follow_each_other(unix: bool)
    ensures
        stage_after(Seq::empty(), unix) == WriteStage::CreateDirectory,
        stage_after(seq![true], unix) == WriteStage::WriteTemporary,
        stage_after(seq![true, true], unix) == (if unix {
            WriteStage::RestrictAccess
        } else {
            WriteStage::Rename
        }),
        stage_after(seq![true, true, true], unix) == (if unix {
            WriteStage::Rename
        } else {
            WriteStage::Written
        }),
        unix ==> stage_after(seq![true, true, true, true], unix) == WriteStage::Written,
{
    reveal_with_fuel(stage_after, 5);
    assert(seq![true].drop_last() == Seq::<bool>::empty());
    assert(seq![true, true].drop_last() == seq![true]);
    assert(seq![true, true, true].drop_last() == seq![true, true]);
    assert(seq![true, true, true, true].drop_last() == seq![true, true, true]);
}

/// A write that fails at any stage has failed, and it is over exactly if it has failed or
/// the file was renamed.
pub proof fn law_failed_stage_ends_the_write(stage: WriteStage, unix: bool)
    requires
        stage != WriteStage::Written,
        stage != WriteStage::Failed,
    ensures
        stage.following(false, unix) == WriteStage::Failed,
        stage.following(true, unix) != WriteStage::Failed,
        stage.following(true, unix) == WriteStage::Written <==> stage == WriteStage::Rename,
        !stage.is_end(),
        WriteStage::Written.is_end(),
        WriteStage::Failed.is_end(),
{
}

/// Until the renaming only the temporary file is changed, and the renaming alone changes the
/// configuration file.
pub proof fn law_stages_change_their_files(stage: WriteStage)
    ensures
        stage == WriteStage::WriteTemporary || stage == WriteStage::RestrictAccess
            <==> stage.changed_file() == Some("config.toml.tmp"@),
        stage == WriteStage::Rename <==> stage.changed_file() == Some("config.toml"@),
        stage == WriteStage::CreateDirectory || stage == WriteStage::Written || stage
            == WriteStage::Failed <==> stage.changed_file() is None,
{
    reveal_strlit("config.toml");
    reveal_strlit("config.toml.tmp");
    assert("config.toml"@.len() != "config.toml.tmp"@.len());
}

/// The configuration file, which holds a cookie, is for its owner alone, who can read and
/// write it.
pub proof fn law_config_file_is_for_its_owner()
    ensures
        CONFIG_FILE_MODE == 0o600,
        CONFIG_FILE_MODE & 0o077 == 0,
{
    assert(0o600u32 & 0o077u32 == 0) by (bit_vector);
}

/// What is written holds every setting, whole.
pub proof fn law_every_setting_is_written(config: Config, manager: ConfigManager)
    requires
        is_snapshot(config, manager),
    ensures
        config.bcookie matches Some(cookie) && cookie@ == manager.bcookie@,
        config.cookies_from_browser matches Some(browser) && browser@
            == manager.cookies_from_browser@,
        config.danmaku_speed == Some(manager.danmaku_speed),
        config.font_alpha_bits == Some(manager.font_alpha_bits),
        config.font_scale_bits == Some(manager.font_scale_bits),
{
}

} // verus!
