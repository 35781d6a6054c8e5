//! Linking of JIT objects: names, builtins, and the backend they are linked with.
use revmc_runtime::linker::{jit_total_bytes, JitObjectLinker, JitObjectSuccess, LinkError};

fn object(symbol_name: &str, builtins: &[&str]) -> JitObjectSuccess {
    JitObjectSuccess {
        symbol_name: symbol_name.to_string(),
        object_bytes: vec![0x7f, 0x45, 0x4c, 0x46],
        builtin_symbols: builtins.iter().map(|name| name.to_string()).collect(),
    }
}

#[test]
fn jit_object_linker_relinks_live_symbol_name() {
    let success = object("jit_duplicate_symbol", &["__revmc_builtin_mload"]);
    let success2 = JitObjectSuccess {
        symbol_name: success.symbol_name.clone(),
        object_bytes: success.object_bytes.clone(),
        builtin_symbols: success.builtin_symbols.clone(),
    };

    let mut linker: JitObjectLinker<u32> = JitObjectLinker::new();
    assert!(linker.needs_backend());
    let first = linker.link(Some(1), &success, &vec![Some(0x1000)]).unwrap();
    let second = linker
        .link(None, &success2, &vec![Some(0x1000)])
        .expect("same symbol should link while previous backing remains alive");
    assert_eq!(first, vec![("__revmc_builtin_mload".to_string(), 0x1000)]);
    assert_eq!(second, first);
}

#[test]
fn the_backend_is_made_once_and_kept() {
    let mut linker: JitObjectLinker<u32> = JitObjectLinker::new();
    assert_eq!(linker.backend(), None);
    let plain = object("jit_plain", &[]);
    assert_eq!(linker.link(Some(1), &plain, &Vec::new()), Ok(Vec::new()));
    assert_eq!(linker.link(Some(2), &plain, &Vec::new()), Ok(Vec::new()));
    assert_eq!(linker.backend(), Some(&1));
    assert!(!linker.needs_backend());
}

#[test]
fn nothing_links_without_a_backend() {
    let mut linker: JitObjectLinker<u32> = JitObjectLinker::new();
    let plain = object("jit_\0", &[]);
    assert_eq!(linker.link(None, &plain, &Vec::new()), Err(LinkError::BackendUnavailable));
    assert!(linker.needs_backend());
}

#[test]
fn symbols_hold_no_zero_byte() {
    let mut linker: JitObjectLinker<u32> = JitObjectLinker::new();
    let bad = object("jit_\0name", &["unknown"]);
    assert_eq!(linker.link(Some(1), &bad, &vec![None]), Err(LinkError::InvalidSymbol));
    // The backend that was made for the call is kept all the same.
    assert!(!linker.needs_backend());
}

#[test]
fn the_first_defective_builtin_is_reported() {
    let mut linker: JitObjectLinker<u32> = JitObjectLinker::new();
    let success = object("jit_name", &["known", "unknown", "also\0bad"]);
    assert_eq!(
        linker.link(Some(1), &success, &vec![Some(1), None, Some(3)]),
        Err(LinkError::UnknownBuiltin(1)),
    );
    assert_eq!(
        linker.link(None, &success, &vec![Some(1), Some(2), Some(3)]),
        Err(LinkError::InvalidBuiltin(2)),
    );
    assert_eq!(
        linker.link(None, &success, &vec![Some(1), Some(2), None]),
        Err(LinkError::UnknownBuiltin(2)),
    );
}

#[test]
fn no_memory_plugin_means_no_jit_bytes() {
    assert_eq!(jit_total_bytes(None), 0);
    assert_eq!(jit_total_bytes(Some(4096)), 4096);
}
