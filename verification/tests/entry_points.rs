use orjson::bytecount::{chunk_count, chunk_num_chars, num_chars};
use orjson::cache::{get_unicode_key, KeyLookup};
use orjson::gil::{do_lock, do_release, GilAction, InternalState, GIL};
use orjson::module::{
    dumps_arguments, dumps_option, loads_arguments, ArgSource, DumpsArgs, DumpsArgsError, KeywordName,
    LoadsArgsError, OptionArg,
};
use orjson::opt::{MAX_OPT, SORT_KEYS};
use orjson::utf8::is_valid_utf8;
use orjson::yyjson::{unsafe_yyjson_get_len, unsafe_yyjson_is_ctn, yyjson_read_max_memory_usage, ElementType};

#[test]
fn dumps_positional_arguments() {
    assert_eq!(dumps_arguments(0, &[]).unwrap_err(), DumpsArgsError::MissingObj);
    assert_eq!(dumps_arguments(1, &[]).unwrap(), DumpsArgs { default: None, option: None });
    assert_eq!(
        dumps_arguments(2, &[]).unwrap(),
        DumpsArgs { default: Some(ArgSource::Positional(1)), option: None }
    );
    assert_eq!(
        dumps_arguments(3, &[]).unwrap(),
        DumpsArgs { default: Some(ArgSource::Positional(1)), option: Some(ArgSource::Positional(2)) }
    );
}

#[test]
fn dumps_keyword_arguments() {
    assert_eq!(
        dumps_arguments(1, &[KeywordName::Option, KeywordName::Default]).unwrap(),
        DumpsArgs { default: Some(ArgSource::Keyword(1)), option: Some(ArgSource::Keyword(0)) }
    );
    assert_eq!(
        dumps_arguments(2, &[KeywordName::Option]).unwrap(),
        DumpsArgs { default: Some(ArgSource::Positional(1)), option: Some(ArgSource::Keyword(0)) }
    );
    let e = dumps_arguments(2, &[KeywordName::Default]).unwrap_err();
    assert_eq!(e.message(), "dumps() got multiple values for argument: 'default'");
    let e = dumps_arguments(3, &[KeywordName::Option]).unwrap_err();
    assert_eq!(e.message(), "dumps() got multiple values for argument: 'option'");
    let e = dumps_arguments(1, &[KeywordName::Default, KeywordName::Other]).unwrap_err();
    assert_eq!(e.message(), "dumps() got an unexpected keyword argument");
    assert_eq!(
        DumpsArgsError::MissingObj.message(),
        "dumps() missing 1 required positional argument: 'obj'"
    );
}

#[test]
fn dumps_options() {
    assert_eq!(dumps_option(None).unwrap(), 0);
    assert_eq!(dumps_option(Some(OptionArg::NoneValue)).unwrap(), 0);
    assert_eq!(dumps_option(Some(OptionArg::Int(SORT_KEYS as i64))).unwrap(), SORT_KEYS);
    assert_eq!(dumps_option(Some(OptionArg::Int(MAX_OPT as i64))).unwrap(), MAX_OPT as u32);
    assert_eq!(dumps_option(Some(OptionArg::Int(MAX_OPT as i64 + 1))).unwrap_err().message(), "Invalid opts");
    assert_eq!(dumps_option(Some(OptionArg::Int(-1))).unwrap_err(), DumpsArgsError::InvalidOpts);
    assert_eq!(dumps_option(Some(OptionArg::NotInt)).unwrap_err(), DumpsArgsError::InvalidOpts);
    assert_eq!(dumps_option(Some(OptionArg::Int((1i64 << 32) + 4))).unwrap(), 4);
}

#[test]
fn loads_arguments_decide_options() {
    assert_eq!(loads_arguments(0, OptionArg::NotInt, &[], &[]).unwrap_err(), LoadsArgsError::MissingObj);
    assert_eq!(loads_arguments(1, OptionArg::NotInt, &[], &[]).unwrap(), 0);
    assert_eq!(loads_arguments(2, OptionArg::Int(4), &[], &[]).unwrap(), 4);
    assert_eq!(loads_arguments(2, OptionArg::NoneValue, &[], &[]).unwrap(), 0);
    assert_eq!(loads_arguments(2, OptionArg::NotInt, &[], &[]).unwrap_err(), LoadsArgsError::InvalidOpts);
    assert_eq!(
        loads_arguments(1, OptionArg::NotInt, &[KeywordName::Option], &[OptionArg::Int(32)]).unwrap(),
        32
    );
    let e = loads_arguments(2, OptionArg::Int(1), &[KeywordName::Option], &[OptionArg::Int(2)]).unwrap_err();
    assert_eq!(e.message(), "loads() got multiple values for argument: 'option'");
    let e = loads_arguments(1, OptionArg::NotInt, &[KeywordName::Default], &[OptionArg::Int(2)]).unwrap_err();
    assert_eq!(e.message(), "loads() got an unexpected keyword argument");
    let e = loads_arguments(2, OptionArg::Int(-3), &[KeywordName::Other], &[OptionArg::Int(2)]).unwrap_err();
    assert_eq!(e, LoadsArgsError::InvalidOpts);
}

#[test]
fn gil_lock_and_release() {
    let mut gil = GIL::new_released();
    assert!(gil.is_released());
    assert_eq!(gil.gil_locked(), Some(GilAction::RestoreThread));
    assert!(!gil.is_released());
    assert_eq!(gil.gil_locked(), Some(GilAction::Keep));
    assert_eq!(gil.release_guard(), Some(GilAction::Keep));
    assert_eq!(gil.release_guard(), Some(GilAction::SaveThread));
    assert!(gil.is_released());
    assert_eq!(gil.finish(), Some(GilAction::RestoreThread));

    let mut held = GIL::new_unreleasable();
    assert!(!held.is_released());
    assert_eq!(held.gil_locked(), None);
    assert_eq!(held.release_guard(), None);
}

#[test]
fn gil_steps() {
    let released = InternalState { saved: true, lock_counter: 0 };
    let (locked, action) = do_lock(released);
    assert_eq!(action, GilAction::RestoreThread);
    assert_eq!(locked, InternalState { saved: false, lock_counter: 1 });
    assert_eq!(do_release(locked), (released, GilAction::SaveThread));
}

#[test]
fn counting_bytes_and_characters() {
    let text = "h\u{e9}llo w\u{f6}rld, \u{4e16}\u{754c}! and some more ascii text";
    assert_eq!(chunk_num_chars(text.as_bytes()), text.chars().count());
    assert_eq!(num_chars("\u{e9}".as_bytes()), 1);
    let hay = vec![7u8; 100];
    assert_eq!(chunk_count(&hay, 7), 100);
    let mut hay = vec![0u8; 40];
    hay[3] = 1;
    hay[39] = 1;
    assert_eq!(chunk_count(&hay, 1), 2);
}

#[test]
fn counting_long_inputs() {
    let hay = vec![b'a'; 8191];
    assert_eq!(chunk_count(&hay, b'a'), 8191);
    let hay = vec![b'a'; 20000];
    assert_eq!(chunk_count(&hay, b'a'), 20000);
    assert_eq!(chunk_num_chars(&hay), 20000);
}

#[test]
fn utf8_validity() {
    assert!(is_valid_utf8(b"plain"));
    assert!(is_valid_utf8("\u{1f600}".as_bytes()));
    assert!(!is_valid_utf8(b"\xc3"));
    assert!(!is_valid_utf8(b"\xed\xa0\x80"));
}

#[test]
fn key_cache_lookup() {
    let short = get_unicode_key(b"key");
    assert_eq!(short, get_unicode_key(b"key"));
    assert!(matches!(short, KeyLookup::Cached(_)));
    assert_ne!(short, get_unicode_key(b"kez"));
    assert_eq!(get_unicode_key(&[b'x'; 65]), KeyLookup::Uncached);
    assert!(matches!(get_unicode_key(&[b'x'; 64]), KeyLookup::Cached(_)));
}

#[test]
fn yyjson_tags() {
    assert_eq!(ElementType::from_tag(5), ElementType::String);
    assert_eq!(ElementType::from_tag(7), ElementType::Object);
    assert_eq!(ElementType::from_tag(11), ElementType::True);
    assert!(unsafe_yyjson_is_ctn(6));
    assert!(unsafe_yyjson_is_ctn(7));
    assert!(!unsafe_yyjson_is_ctn(5));
    assert_eq!(unsafe_yyjson_get_len((3 << 8) | 6), 3);
    assert_eq!(yyjson_read_max_memory_usage(100), 1456);
}
