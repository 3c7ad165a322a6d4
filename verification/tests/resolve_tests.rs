use symbolserver::database::Database;
use symbolserver::errors::LoadFault;
use symbolserver::image::{DebugId, ImageIndex};
use symbolserver::resolve::{identity_of, resolve, resolve_batch, ImageIdentity, Query};
use symbolserver::symtab::{SymbolEntry, SymbolTable};

fn entry(addr: u64, name: &str) -> SymbolEntry {
    SymbolEntry { addr, name: name.to_string() }
}

fn fgh_table() -> SymbolTable {
    SymbolTable::new(vec![entry(100, "f"), entry(200, "g"), entry(300, "h")]).unwrap()
}

fn image(table: SymbolTable) -> ImageIndex {
    ImageIndex {
        debug_id: Some(DebugId { value: 7 }),
        object_path: Some("/usr/lib/libm.dylib".to_string()),
        arch: "arm64".to_string(),
        object_name: "libm".to_string(),
        link_vmaddr: Some(0),
        table,
    }
}

fn query(addr: u64, image_addr: u64) -> Query {
    Query {
        addr,
        image_addr,
        image_vmaddr: None,
        identity: ImageIdentity::ByDebugId(DebugId { value: 7 }),
    }
}

#[test]
fn resolves_between_entries_to_lower_neighbour() {
    let img = image(fgh_table());
    let sym = resolve(&img, &query(250, 0)).unwrap();
    assert_eq!(sym.symbol, "g");
    assert_eq!(sym.addr, 200);
    assert_eq!(sym.object_name, "libm");
}

#[test]
fn resolves_below_table_to_none() {
    let img = image(fgh_table());
    assert!(resolve(&img, &query(50, 0)).is_none());
}

#[test]
fn resolves_exact_entry_address() {
    let img = image(fgh_table());
    let sym = resolve(&img, &query(300, 0)).unwrap();
    assert_eq!(sym.symbol, "h");
    assert_eq!(sym.addr, 300);
}

#[test]
fn relocation_translates_runtime_addresses() {
    let img = image(fgh_table());
    // runtime 1250, loaded at 1000, linked at 0: link-space 250
    let relocated = resolve(&img, &query(1250, 1000)).unwrap();
    let direct = resolve(&img, &query(250, 0)).unwrap();
    assert_eq!(relocated.symbol, "g");
    assert_eq!(relocated.addr, 200);
    assert_eq!(direct.symbol, relocated.symbol);
    assert_eq!(direct.addr, relocated.addr);
}

#[test]
fn query_vmaddr_is_used_when_image_has_none() {
    let mut img = image(fgh_table());
    img.link_vmaddr = None;
    let q = Query {
        addr: 1250,
        image_addr: 1000,
        image_vmaddr: Some(50),
        identity: ImageIdentity::ByDebugId(DebugId { value: 7 }),
    };
    // link-space 1250 - 1000 + 50 = 300
    let sym = resolve(&img, &q).unwrap();
    assert_eq!(sym.symbol, "h");
}

#[test]
fn translation_wraps_in_64_bits() {
    let img = image(fgh_table());
    let q = Query {
        addr: 0,
        image_addr: 1,
        image_vmaddr: None,
        identity: ImageIdentity::Unspecified,
    };
    // 0 - 1 wraps to u64::MAX; + 0 stays far above the table's last entry
    let sym = resolve(&img, &q).unwrap();
    assert_eq!(sym.symbol, "h");
}

#[test]
fn resolves_last_entry_for_large_addresses() {
    let img = image(fgh_table());
    let sym = resolve(&img, &query(u64::MAX, 0)).unwrap();
    assert_eq!(sym.symbol, "h");
}

#[test]
fn empty_table_resolves_to_none() {
    let img = image(SymbolTable::new(vec![]).unwrap());
    assert!(resolve(&img, &query(250, 0)).is_none());
}

#[test]
fn unsorted_entries_are_flagged() {
    let r = SymbolTable::new(vec![entry(200, "g"), entry(100, "f")]);
    assert!(matches!(r, Err(LoadFault::Format)));
}

#[test]
fn duplicate_addresses_are_flagged_not_merged() {
    let r = SymbolTable::new(vec![entry(100, "f"), entry(100, "g")]);
    assert!(matches!(r, Err(LoadFault::Format)));
}

fn two_image_db() -> Database {
    let a = ImageIndex {
        debug_id: Some(DebugId { value: 1 }),
        object_path: Some("/bin/app".to_string()),
        arch: "x86_64".to_string(),
        object_name: "app".to_string(),
        link_vmaddr: Some(0),
        table: fgh_table(),
    };
    let b = ImageIndex {
        debug_id: Some(DebugId { value: 2 }),
        object_path: Some("/usr/lib/libc.so".to_string()),
        arch: "x86_64".to_string(),
        object_name: "libc".to_string(),
        link_vmaddr: Some(0),
        table: SymbolTable::new(vec![entry(1000, "malloc"), entry(2000, "free")]).unwrap(),
    };
    Database::from_images(vec![a, b]).unwrap()
}

#[test]
fn finds_images_by_identity_and_path() {
    let db = two_image_db();
    assert!(db.find_image_by_identity(DebugId { value: 2 }).is_some());
    assert!(db.find_image_by_identity(DebugId { value: 9 }).is_none());
    let by_path =
        db.find_image_by_path(&"/bin/app".to_string(), &"x86_64".to_string());
    assert_eq!(by_path.unwrap().object_name, "app");
    let wrong_arch =
        db.find_image_by_path(&"/bin/app".to_string(), &"arm64".to_string());
    assert!(wrong_arch.is_none());
}

#[test]
fn duplicate_debug_ids_are_flagged() {
    let mk = |path: &str| ImageIndex {
        debug_id: Some(DebugId { value: 5 }),
        object_path: Some(path.to_string()),
        arch: "arm64".to_string(),
        object_name: "dup".to_string(),
        link_vmaddr: None,
        table: SymbolTable::new(vec![]).unwrap(),
    };
    let r = Database::from_images(vec![mk("/a"), mk("/b")]);
    assert!(matches!(r, Err(LoadFault::Format)));
}

#[test]
fn duplicate_path_keys_are_flagged_but_archs_differ() {
    let mk = |id: u128, arch: &str| ImageIndex {
        debug_id: Some(DebugId { value: id }),
        object_path: Some("/a".to_string()),
        arch: arch.to_string(),
        object_name: "a".to_string(),
        link_vmaddr: None,
        table: SymbolTable::new(vec![]).unwrap(),
    };
    assert!(matches!(
        Database::from_images(vec![mk(1, "arm64"), mk(2, "arm64")]),
        Err(LoadFault::Format)
    ));
    assert!(Database::from_images(vec![mk(1, "arm64"), mk(2, "x86_64")]).is_ok());
}

#[test]
fn batch_output_mirrors_input_order_and_length() {
    let db = two_image_db();
    let arch = "x86_64".to_string();
    let queries = vec![
        Query {
            addr: 1500,
            image_addr: 0,
            image_vmaddr: None,
            identity: ImageIdentity::ByDebugId(DebugId { value: 2 }),
        },
        Query {
            addr: 250,
            image_addr: 0,
            image_vmaddr: None,
            identity: ImageIdentity::ByPath("/bin/app".to_string()),
        },
        Query {
            addr: 250,
            image_addr: 0,
            image_vmaddr: None,
            identity: ImageIdentity::Unspecified,
        },
        Query {
            addr: 250,
            image_addr: 0,
            image_vmaddr: None,
            identity: ImageIdentity::ByDebugId(DebugId { value: 99 }),
        },
        Query {
            addr: 10,
            image_addr: 0,
            image_vmaddr: None,
            identity: ImageIdentity::ByDebugId(DebugId { value: 1 }),
        },
    ];
    let out = resolve_batch(&db, &arch, &queries);
    assert_eq!(out.len(), queries.len());
    assert_eq!(out[0].as_ref().unwrap().symbol, "malloc");
    assert_eq!(out[0].as_ref().unwrap().object_name, "libc");
    assert_eq!(out[1].as_ref().unwrap().symbol, "g");
    assert_eq!(out[1].as_ref().unwrap().object_name, "app");
    assert!(out[2].is_none());
    assert!(out[3].is_none());
    assert!(out[4].is_none());
}

#[test]
fn identity_prefers_debug_id_over_path() {
    let id = DebugId { value: 3 };
    let both = identity_of(Some(id), Some("/a".to_string()));
    assert!(matches!(both, ImageIdentity::ByDebugId(d) if d.value == 3));
    let path_only = identity_of(None, Some("/a".to_string()));
    assert!(matches!(path_only, ImageIdentity::ByPath(p) if p == "/a"));
    assert!(matches!(identity_of(None, None), ImageIdentity::Unspecified));
}
