//! Evaluation settings taken from a request's flags, and the handling of truncation and
//! overflow conditions as errors or capped warnings.

use crate::error::ExecError;
use std::sync::Arc;
use vstd::prelude::*;
use vstd::utf8::{decode_utf8, valid_utf8};

verus! {

/// Truncation conditions are ignored (read-only statements).
pub const FLAG_IGNORE_TRUNCATE: u64 = 1;

/// Truncation conditions are kept as warnings; only read when they are not ignored.
pub const FLAG_TRUNCATE_AS_WARNING: u64 = 2;

/// The statement is a SELECT.
pub const FLAG_IN_SELECT_STMT: u64 = 32;

/// Overflow conditions are kept as warnings.
pub const FLAG_OVERFLOW_AS_WARNING: u64 = 64;

/// Default number of warnings whose details are kept.
pub const DEFAULT_MAX_WARNING_CNT: usize = 64;

/// Seconds in a day: time zone offsets lie strictly within one day of UTC.
pub const ONE_DAY: i64 = 86400;

/// The text `String::from_utf8_lossy` makes of some bytes.
pub uninterp spec fn lossy_text(b: Seq<u8>) -> Seq<char>;

/// Relies on `String::from_utf8_lossy`: valid UTF-8 is decoded as it is, and each
/// invalid sequence becomes U+FFFD.
#[verifier::external_body]
fn utf8_lossy(b: &[u8]) -> (r: String)
    ensures
        r@ == lossy_text(b@),
        valid_utf8(b@) ==> r@ == decode_utf8(b@),
{
    String::from_utf8_lossy(b).into_owned()
}

/// How an evaluation treats truncation and overflow, and how many warnings it keeps.
#[derive(Debug)]
pub struct EvalConfig {
    /// Offset of the time zone east of UTC, in seconds.
    pub tz_offset: i32,
    pub ignore_truncate: bool,
    pub truncate_as_warning: bool,
    pub overflow_as_warning: bool,
    pub in_select_stmt: bool,
    pub max_warning_cnt: usize,
}

impl Default for EvalConfig {
    fn default() -> (r: EvalConfig)
        ensures
            r.tz_offset == 0,
            !r.ignore_truncate,
            !r.truncate_as_warning,
            !r.overflow_as_warning,
            !r.in_select_stmt,
            r.max_warning_cnt == DEFAULT_MAX_WARNING_CNT,
    {
        EvalConfig {
            tz_offset: 0,
            ignore_truncate: false,
            truncate_as_warning: false,
            overflow_as_warning: false,
            in_select_stmt: false,
            max_warning_cnt: DEFAULT_MAX_WARNING_CNT,
        }
    }
}

impl EvalConfig {
    /// The settings that a request's time zone offset and flags select; an offset of a
    /// day or more either way is an unknown time zone.
    pub fn new(tz_offset: i64, flags: u64) -> (r: Result<EvalConfig, ExecError>)
        ensures
            (tz_offset <= -ONE_DAY || tz_offset >= ONE_DAY) ==> r == Err::<EvalConfig, ExecError>(
                ExecError::UnknownTimezone(tz_offset),
            ),
            -ONE_DAY < tz_offset < ONE_DAY ==> (r matches Ok(c) && c.tz_offset == tz_offset
                && c.ignore_truncate == (flags & FLAG_IGNORE_TRUNCATE != 0) && c.truncate_as_warning
                == (flags & FLAG_TRUNCATE_AS_WARNING != 0) && c.overflow_as_warning == (flags
                & FLAG_OVERFLOW_AS_WARNING != 0) && c.in_select_stmt == (flags & FLAG_IN_SELECT_STMT
                != 0) && c.max_warning_cnt == DEFAULT_MAX_WARNING_CNT),
    {
        if tz_offset <= -ONE_DAY || tz_offset >= ONE_DAY {
            return Err(ExecError::UnknownTimezone(tz_offset));
        }
        Ok(EvalConfig {
            tz_offset: tz_offset as i32,
            ignore_truncate: (flags & FLAG_IGNORE_TRUNCATE) > 0,
            truncate_as_warning: (flags & FLAG_TRUNCATE_AS_WARNING) > 0,
            overflow_as_warning: (flags & FLAG_OVERFLOW_AS_WARNING) > 0,
            in_select_stmt: (flags & FLAG_IN_SELECT_STMT) > 0,
            max_warning_cnt: DEFAULT_MAX_WARNING_CNT,
        })
    }

    pub fn set_max_warning_cnt(&mut self, max_warning_cnt: usize)
        ensures
            final(self).max_warning_cnt == max_warning_cnt,
            final(self).tz_offset == old(self).tz_offset,
            final(self).ignore_truncate == old(self).ignore_truncate,
            final(self).truncate_as_warning == old(self).truncate_as_warning,
            final(self).overflow_as_warning == old(self).overflow_as_warning,
            final(self).in_select_stmt == old(self).in_select_stmt,
    {
        self.max_warning_cnt = max_warning_cnt;
    }

    /// An empty warning list that keeps the details of at most `max_warning_cnt` warnings.
    pub fn new_eval_warnings(&self) -> (r: EvalWarnings)
        ensures
            r.max() == self.max_warning_cnt,
            r.warning_cnt == 0,
            r.warnings@.len() == 0,
    {
        EvalWarnings::new(self.max_warning_cnt)
    }
}

/// Warnings met during an evaluation: all are counted, the first few are kept.
#[derive(Debug, Default)]
pub struct EvalWarnings {
    /// Number of warnings whose details are kept.
    pub max_warning_cnt: usize,
    /// Number of warnings met.
    pub warning_cnt: usize,
    /// The first warnings met, at most the cap of them.
    pub warnings: Vec<ExecError>,
}

impl EvalWarnings {
    /// The number of warnings whose details are kept.
    pub open spec fn max(&self) -> nat {
        self.max_warning_cnt as nat
    }

    fn new(max_warning_cnt: usize) -> (r: EvalWarnings)
        ensures
            r.max() == max_warning_cnt,
            r.warning_cnt == 0,
            r.warnings@.len() == 0,
    {
        EvalWarnings { max_warning_cnt, warning_cnt: 0, warnings: Vec::new() }
    }

    /// Counts `err`, and keeps it while fewer than the cap are kept.
    pub fn append_warning(&mut self, err: ExecError)
        requires
            old(self).warning_cnt < usize::MAX,
        ensures
            final(self).max() == old(self).max(),
            final(self).warning_cnt == old(self).warning_cnt + 1,
            final(self).warnings@ == if old(self).warnings@.len() < old(self).max() {
                old(self).warnings@.push(err)
            } else {
                old(self).warnings@
            },
    {
        self.warning_cnt = self.warning_cnt + 1;
        if self.warnings.len() < self.max_warning_cnt {
            self.warnings.push(err);
        }
    }

    /// Adds the count of `other`, and keeps as many of its warnings as the cap leaves room for.
    pub fn merge(&mut self, other: EvalWarnings)
        requires
            old(self).warning_cnt + other.warning_cnt <= usize::MAX,
        ensures
            final(self).max() == old(self).max(),
            final(self).warning_cnt == old(self).warning_cnt + other.warning_cnt,
            final(self).warnings@ == if old(self).warnings@.len() >= old(self).max() {
                old(self).warnings@
            } else if other.warnings@.len() <= old(self).max() - old(self).warnings@.len() {
                old(self).warnings@ + other.warnings@
            } else {
                old(self).warnings@ + other.warnings@.subrange(
                    0,
                    old(self).max() - old(self).warnings@.len(),
                )
            },
    {
        let mut other = other;
        self.warning_cnt = self.warning_cnt + other.warning_cnt;
        if self.warnings.len() >= self.max_warning_cnt {
            return;
        }
        let room = self.max_warning_cnt - self.warnings.len();
        other.warnings.truncate(room);
        self.warnings.append(&mut other.warnings);
    }
}

/// The settings of an evaluation and the warnings it has met.
#[derive(Debug)]
pub struct EvalContext {
    pub cfg: Arc<EvalConfig>,
    pub warnings: EvalWarnings,
}

impl Default for EvalContext {
    fn default() -> (r: EvalContext)
        ensures
            r.cfg.max_warning_cnt == DEFAULT_MAX_WARNING_CNT,
            !r.cfg.ignore_truncate,
            !r.cfg.truncate_as_warning,
            !r.cfg.overflow_as_warning,
            r.warnings.max() == DEFAULT_MAX_WARNING_CNT,
            r.warnings.warning_cnt == 0,
            r.warnings.warnings@.len() == 0,
    {
        let cfg = Arc::new(EvalConfig::default());
        let warnings = cfg.new_eval_warnings();
        EvalContext { cfg, warnings }
    }
}

/// `new` is `old` with `err` counted, and kept while fewer than the cap are kept.
pub open spec fn warned(old: EvalWarnings, new: EvalWarnings, err: ExecError) -> bool {
    &&& new.max() == old.max()
    &&& new.warning_cnt == old.warning_cnt + 1
    &&& new.warnings@ == if old.warnings@.len() < old.max() {
        old.warnings@.push(err)
    } else {
        old.warnings@
    }
}

/// The outcome of handling the truncation condition `err` under the settings of `old`.
pub open spec fn handled_truncation(
    old: EvalContext,
    new: EvalContext,
    err: ExecError,
    r: Result<(), ExecError>,
) -> bool {
    if old.cfg.ignore_truncate {
        r is Ok && new.warnings == old.warnings
    } else if old.cfg.truncate_as_warning {
        r is Ok && warned(old.warnings, new.warnings, err)
    } else {
        r == Err::<(), ExecError>(err) && new.warnings == old.warnings
    }
}

/// The outcome of handling the overflow condition `err` under the settings of `old`.
pub open spec fn handled_overflow(
    old: EvalContext,
    new: EvalContext,
    err: ExecError,
    r: Result<(), ExecError>,
) -> bool {
    if old.cfg.overflow_as_warning {
        r is Ok && warned(old.warnings, new.warnings, err)
    } else {
        r == Err::<(), ExecError>(err) && new.warnings == old.warnings
    }
}

/// The condition raised for a value that had to be truncated.
pub open spec fn is_data_truncated(e: ExecError) -> bool {
    e matches ExecError::Truncated(m) && m@ == "[1265] Data Truncated"@
}

impl EvalContext {
    pub fn new(cfg: Arc<EvalConfig>) -> (r: EvalContext)
        ensures
            r.cfg == cfg,
            r.warnings.max() == cfg.max_warning_cnt,
            r.warnings.warning_cnt == 0,
            r.warnings.warnings@.len() == 0,
    {
        let warnings = cfg.new_eval_warnings();
        EvalContext { cfg, warnings }
    }

    /// Handles a value that was or was not truncated: not truncated is fine, else the
    /// truncation condition is handled as `handle_truncate_err` does.
    pub fn handle_truncate(&mut self, is_truncated: bool) -> (r: Result<(), ExecError>)
        requires
            old(self).warnings.warning_cnt < usize::MAX,
        ensures
            final(self).cfg == old(self).cfg,
            !is_truncated ==> r is Ok && final(self).warnings == old(self).warnings,
            is_truncated ==> exists|e: ExecError|
                is_data_truncated(e) && handled_truncation(*old(self), *final(self), e, r),
    {
        if !is_truncated {
            return Ok(());
        }
        let err = ExecError::Truncated("[1265] Data Truncated".to_owned());
        proof {
            reveal_strlit("[1265] Data Truncated");
        }
        let ghost e = err;
        let r = self.handle_truncate_err(err);
        assert(is_data_truncated(e));
        r
    }

    /// A truncation condition: ignored, kept as a warning, or returned, in that order
    /// of precedence.
    pub fn handle_truncate_err(&mut self, err: ExecError) -> (r: Result<(), ExecError>)
        requires
            old(self).warnings.warning_cnt < usize::MAX,
        ensures
            final(self).cfg == old(self).cfg,
            handled_truncation(*old(self), *final(self), err, r),
    {
        if self.cfg.ignore_truncate {
            return Ok(());
        }
        if self.cfg.truncate_as_warning {
            self.warnings.append_warning(err);
            return Ok(());
        }
        Err(err)
    }

    /// An overflow condition: kept as a warning or returned, as the settings say.
    pub fn handle_over_flow(&mut self, err: ExecError) -> (r: Result<(), ExecError>)
        requires
            old(self).warnings.warning_cnt < usize::MAX,
        ensures
            final(self).cfg == old(self).cfg,
            handled_overflow(*old(self), *final(self), err, r),
    {
        if self.cfg.overflow_as_warning {
            self.warnings.append_warning(err);
            Ok(())
        } else {
            Err(err)
        }
    }

    /// A string cast to an integer overflowed: in a SELECT that keeps overflows as
    /// warnings, warns that `bytes` were truncated and gives the bound on the side of
    /// the overflow; otherwise returns `orig_err`.
    pub fn overflow_from_cast_str_as_int(
        &mut self,
        bytes: &[u8],
        orig_err: ExecError,
        negitive: bool,
    ) -> (r: Result<i64, ExecError>)
        requires
            old(self).warnings.warning_cnt < usize::MAX,
        ensures
            final(self).cfg == old(self).cfg,
            !(old(self).cfg.in_select_stmt && old(self).cfg.overflow_as_warning) ==> r == Err::<
                i64,
                ExecError,
            >(orig_err) && final(self).warnings == old(self).warnings,
            old(self).cfg.in_select_stmt && old(self).cfg.overflow_as_warning ==> {
                &&& r == Ok::<i64, ExecError>(
                    if negitive {
                        i64::MIN
                    } else {
                        -1i64
                    },
                )
                &&& exists|tp: String, value: String|
                    tp@ == "INTEGER"@ && value@ == lossy_text(bytes@) && warned(
                        old(self).warnings,
                        final(self).warnings,
                        ExecError::TruncatedWrongValue(tp, value),
                    )
            },
    {
        if !self.cfg.in_select_stmt || !self.cfg.overflow_as_warning {
            return Err(orig_err);
        }
        let orig_str = utf8_lossy(bytes);
        let tp = "INTEGER".to_owned();
        proof {
            reveal_strlit("INTEGER");
        }
        let ghost (t, v) = (tp, orig_str);
        self.warnings.append_warning(ExecError::TruncatedWrongValue(tp, orig_str));
        assert(warned(old(self).warnings, self.warnings, ExecError::TruncatedWrongValue(t, v)));
        assert((0xffff_ffff_ffff_ffffu64 as i64) == -1i64) by (bit_vector);
        if negitive {
            Ok(i64::MIN)
        } else {
            Ok(u64::MAX as i64)
        }
    }

    /// Hands out the warnings met so far and starts an empty list with the configured cap.
    pub fn take_warnings(&mut self) -> (r: EvalWarnings)
        ensures
            r == old(self).warnings,
            final(self).cfg == old(self).cfg,
            final(self).warnings.max() == old(self).cfg.max_warning_cnt,
            final(self).warnings.warning_cnt == 0,
            final(self).warnings.warnings@.len() == 0,
    {
        let mut taken = EvalWarnings::new(self.cfg.max_warning_cnt);
        std::mem::swap(&mut taken, &mut self.warnings);
        taken
    }
}

} // verus!
