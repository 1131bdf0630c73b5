use coprocessor_chunk::ctx::{
    EvalConfig, EvalContext, EvalWarnings, DEFAULT_MAX_WARNING_CNT, FLAG_IGNORE_TRUNCATE,
    FLAG_IN_SELECT_STMT, FLAG_OVERFLOW_AS_WARNING, FLAG_TRUNCATE_AS_WARNING,
};
use coprocessor_chunk::error::ExecError;
use std::sync::Arc;

#[test]
fn test_handle_truncate() {
    // ignore_truncate = false, truncate_as_warning = false
    let mut ctx = EvalContext::new(Arc::new(EvalConfig::new(0, 0).unwrap()));
    assert!(ctx.handle_truncate(false).is_ok());
    assert!(ctx.handle_truncate(true).is_err());
    assert!(ctx.take_warnings().warnings.is_empty());
    // ignore_truncate = false;
    let mut ctx = EvalContext::new(Arc::new(EvalConfig::new(0, FLAG_IGNORE_TRUNCATE).unwrap()));
    assert!(ctx.handle_truncate(false).is_ok());
    assert!(ctx.handle_truncate(true).is_ok());
    assert!(ctx.take_warnings().warnings.is_empty());

    // ignore_truncate = false, truncate_as_warning = true
    let mut ctx = EvalContext::new(Arc::new(
        EvalConfig::new(0, FLAG_TRUNCATE_AS_WARNING).unwrap(),
    ));
    assert!(ctx.handle_truncate(false).is_ok());
    assert!(ctx.handle_truncate(true).is_ok());
    assert!(!ctx.take_warnings().warnings.is_empty());
}

#[test]
fn test_max_warning_cnt() {
    let eval_cfg = Arc::new(EvalConfig::new(0, FLAG_TRUNCATE_AS_WARNING).unwrap());
    let mut ctx = EvalContext::new(Arc::clone(&eval_cfg));
    assert!(ctx.handle_truncate(true).is_ok());
    assert!(ctx.handle_truncate(true).is_ok());
    assert_eq!(ctx.take_warnings().warnings.len(), 2);
    for _ in 0..2 * DEFAULT_MAX_WARNING_CNT {
        assert!(ctx.handle_truncate(true).is_ok());
    }
    let warnings = ctx.take_warnings();
    assert_eq!(warnings.warning_cnt, 2 * DEFAULT_MAX_WARNING_CNT);
    assert_eq!(warnings.warnings.len(), eval_cfg.max_warning_cnt);
}

#[test]
fn timezone_must_lie_within_a_day() {
    assert_eq!(EvalConfig::new(86400, 0).unwrap_err(), ExecError::UnknownTimezone(86400));
    assert_eq!(EvalConfig::new(-86400, 0).unwrap_err(), ExecError::UnknownTimezone(-86400));
    let cfg = EvalConfig::new(-86399, FLAG_OVERFLOW_AS_WARNING | FLAG_IN_SELECT_STMT).unwrap();
    assert_eq!(cfg.tz_offset, -86399);
    assert!(cfg.overflow_as_warning && cfg.in_select_stmt);
    assert!(!cfg.ignore_truncate && !cfg.truncate_as_warning);
}

#[test]
fn truncation_error_precedence() {
    let both = FLAG_IGNORE_TRUNCATE | FLAG_TRUNCATE_AS_WARNING;
    let mut ctx = EvalContext::new(Arc::new(EvalConfig::new(0, both).unwrap()));
    assert!(ctx.handle_truncate(true).is_ok());
    assert_eq!(ctx.take_warnings().warning_cnt, 0);
    let mut ctx = EvalContext::new(Arc::new(EvalConfig::new(0, 0).unwrap()));
    assert_eq!(
        ctx.handle_truncate(true),
        Err(ExecError::Truncated("[1265] Data Truncated".to_string()))
    );
}

#[test]
fn overflow_handling() {
    let mut strict = EvalContext::default();
    assert_eq!(strict.handle_over_flow(ExecError::Overflow("o".to_string())), Err(ExecError::Overflow("o".to_string())));
    let cfg = EvalConfig::new(0, FLAG_OVERFLOW_AS_WARNING | FLAG_IN_SELECT_STMT).unwrap();
    let mut lax = EvalContext::new(Arc::new(cfg));
    assert!(lax.handle_over_flow(ExecError::Overflow("o".to_string())).is_ok());
    assert_eq!(lax.overflow_from_cast_str_as_int(b"-99999999999999999999", ExecError::Overflow("x".to_string()), true), Ok(i64::MIN));
    assert_eq!(lax.overflow_from_cast_str_as_int(b"9\xff", ExecError::Overflow("x".to_string()), false), Ok(-1));
    let w = lax.take_warnings();
    assert_eq!(w.warning_cnt, 3);
    assert_eq!(w.warnings[1], ExecError::TruncatedWrongValue("INTEGER".to_string(), "-99999999999999999999".to_string()));
    assert_eq!(w.warnings[2], ExecError::TruncatedWrongValue("INTEGER".to_string(), "9\u{fffd}".to_string()));
    let only_warn = EvalConfig::new(0, FLAG_OVERFLOW_AS_WARNING).unwrap();
    let mut not_select = EvalContext::new(Arc::new(only_warn));
    assert_eq!(not_select.overflow_from_cast_str_as_int(b"1", ExecError::Overflow("x".to_string()), false), Err(ExecError::Overflow("x".to_string())));
}

#[test]
fn merge_respects_cap() {
    let mut cfg = EvalConfig::default();
    cfg.set_max_warning_cnt(3);
    let mut a = cfg.new_eval_warnings();
    a.append_warning(ExecError::Outdated);
    a.append_warning(ExecError::Outdated);
    let mut b: EvalWarnings = cfg.new_eval_warnings();
    b.append_warning(ExecError::Other("1".to_string()));
    b.append_warning(ExecError::Other("2".to_string()));
    a.merge(b);
    assert_eq!(a.warning_cnt, 4);
    assert_eq!(a.warnings, vec![ExecError::Outdated, ExecError::Outdated, ExecError::Other("1".to_string())]);
    let mut c = cfg.new_eval_warnings();
    c.append_warning(ExecError::Outdated);
    a.merge(c);
    assert_eq!(a.warning_cnt, 5);
    assert_eq!(a.warnings.len(), 3);
}
