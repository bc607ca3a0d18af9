use openvoxel::fileext::FileExt;
use openvoxel::packs::{AssetPackId, AssetPackReader, ListedFile};

fn file(path: &str, ext: FileExt, rel: Option<&str>) -> ListedFile {
    ListedFile { path: path.to_string(), ext, rel: rel.map(|r| r.to_string()) }
}

#[test]
fn mounts_are_ordered_by_priority() {
    let mut rdr = AssetPackReader::default();
    let a = rdr.mount("a".to_string(), 5);
    let b = rdr.mount("b".to_string(), 1);
    let c = rdr.mount("c".to_string(), 5);
    let d = rdr.mount_to_end("d".to_string());
    assert_eq!((a, b, c, d), (AssetPackId(0), AssetPackId(1), AssetPackId(2), AssetPackId(3)));
    // order: b (1), c (5, inserted before a), a (5), d (5, at the end)
    let listings = vec![
        vec![file("b/x.png", FileExt::Png, Some("x"))],
        vec![file("c/x.png", FileExt::Png, Some("x")), file("c/y.png", FileExt::Png, Some("y"))],
        vec![file("a/z.png", FileExt::Png, Some("z"))],
        vec![file("d/w.png", FileExt::Png, Some("w"))],
    ];
    let tasks = rdr.select_files(&listings, &[FileExt::Png]);
    let picked: Vec<(String, u32)> = tasks.iter().map(|t| (t.path.clone(), t.pack.0)).collect();
    assert_eq!(
        picked,
        vec![
            ("b/x.png".to_string(), 1),
            ("c/y.png".to_string(), 2),
            ("a/z.png".to_string(), 0),
            ("d/w.png".to_string(), 3),
        ]
    );
}

#[test]
fn select_files_filters_extensions() {
    let mut rdr = AssetPackReader::new();
    rdr.mount_to_end("pack".to_string());
    let listings = vec![vec![
        file("pack/a.png", FileExt::Png, Some("a")),
        file("pack/b.toml", FileExt::Toml, Some("b")),
        file("pack/c.xyz", FileExt::Unsupported("xyz".to_string()), Some("c")),
        file("pack/d.png", FileExt::Png, None),
    ]];
    let tasks = rdr.select_files(&listings, &[FileExt::Toml, FileExt::Unsupported("xyz".to_string())]);
    let rels: Vec<String> = tasks.iter().map(|t| t.rel.clone()).collect();
    assert_eq!(rels, vec!["b".to_string(), "c".to_string()]);
    assert!(tasks.iter().all(|t| t.pack == AssetPackId(0)));
}
