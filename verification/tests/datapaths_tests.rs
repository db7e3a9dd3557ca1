use luola2::datapaths::{datafile_candidates, LOCAL_SHARE_PATH, SHARE_PATH};

#[test]
fn data_files_are_looked_for_in_user_then_base_then_share_directories() {
    let c = datafile_candidates("/home/u/.local/luola2", "/opt/luola2", "levels/cave.toml", true);
    assert_eq!(
        c,
        vec![
            vec!["/home/u/.local/luola2", "data", "levels/cave.toml"],
            vec!["/opt/luola2", "data", "levels/cave.toml"],
            vec![LOCAL_SHARE_PATH, "levels/cave.toml"],
            vec![SHARE_PATH, "levels/cave.toml"],
        ]
    );
    let c = datafile_candidates("u", "b", "x", false);
    assert_eq!(c, vec![vec!["u", "data", "x"], vec!["b", "data", "x"]]);
}
