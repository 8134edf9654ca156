use probe::csv_data::{load_csv_rows, rows_from_table, CsvLoader, CsvRowLoader};
use probe::model::{Collection, CollectionSummary};
use probe::repository::InMemoryCollectionRepository;
use probe::storage::{collections_dir, csv_dir, json_stem, sanitize_name, sort_summaries, Storage};

fn collection(name: &str) -> Collection {
    Collection { name: name.to_string(), version: "1".to_string(), requests: vec![], tests: vec![] }
}

fn get<'a>(row: &'a [(String, String)], key: &str) -> Option<&'a str> {
    row.iter().find(|(k, _)| k == key).map(|(_, v)| v.as_str())
}

#[test]
fn in_memory_repo_round_trips() {
    let mut repo = InMemoryCollectionRepository::new();
    let collection = collection("memoria");
    repo.save(&collection).unwrap();
    let list = repo.list(|_| 0).unwrap();
    assert_eq!(list.len(), 1);
    assert_eq!(repo.load("memoria").unwrap().name, "memoria");
    assert!(repo.load("no-existe").is_err());
    repo.delete("memoria").unwrap();
    assert!(repo.list(|_| 0).unwrap().is_empty());
}

#[test]
fn in_memory_repo_keeps_one_per_name_sorted() {
    let mut repo = InMemoryCollectionRepository::default();
    repo.save(&collection("zeta")).unwrap();
    repo.save(&collection("alfa")).unwrap();
    let mut again = collection("zeta");
    again.version = "2".to_string();
    repo.save(&again).unwrap();
    let list = repo.list(|c| c.version.len() as u64 * 10).unwrap();
    let names: Vec<&str> = list.iter().map(|s| s.name.as_str()).collect();
    assert_eq!(names, vec!["alfa", "zeta"]);
    assert_eq!(list[0].size, 10);
    assert_eq!(repo.load("zeta").unwrap().version, "2");
    assert_eq!(repo.load("nada").unwrap_err(), "la colección \"nada\" no existe");
    assert_eq!(repo.load_file("x.json").unwrap_err(), "el repositorio en memoria no lee archivos");
    repo.delete("nada").unwrap();
    assert_eq!(repo.list(|_| 0).unwrap().len(), 2);
}

#[test]
fn csv_rows_use_headers_as_variable_names() {
    let content = b"id,nombre\n1,ana\n2,leo\n";
    let rows = load_csv_rows("usuarios.csv", Some(&content[..])).unwrap();
    assert_eq!(rows.len(), 2);
    assert_eq!(get(&rows[0], "id"), Some("1"));
    assert_eq!(get(&rows[0], "nombre"), Some("ana"));
    assert_eq!(get(&rows[1], "id"), Some("2"));
    assert_eq!(get(&rows[1], "nombre"), Some("leo"));
}

#[test]
fn csv_missing_file_errors() {
    assert!(load_csv_rows("no-existe.csv", None).is_err());
    assert_eq!(load_csv_rows("no-existe.csv", None).unwrap_err(), "no se pudo abrir el CSV no-existe.csv");
}

#[test]
fn csv_values_are_trimmed_and_bad_records_rejected() {
    let rows = CsvLoader.load("d.csv", Some(&b" id , x \n 7 , y \n"[..])).unwrap();
    assert_eq!(get(&rows[0], "id"), Some("7"));
    assert_eq!(get(&rows[0], "x"), Some("y"));
    let bad = load_csv_rows("d.csv", Some(&b"a,b\n1,2,3\n"[..]));
    assert_eq!(bad.unwrap_err(), "CSV inválido en d.csv");
    let bad_header = load_csv_rows("d.csv", Some(&b"\xff,b\n1,2\n"[..]));
    assert_eq!(bad_header.unwrap_err(), "CSV sin encabezados en d.csv");
}

#[test]
fn rows_keep_last_value_of_repeated_header() {
    let headers = vec!["k".to_string(), " k ".to_string(), "z".to_string()];
    let records = vec![vec!["1".to_string(), "2".to_string()]];
    let rows = rows_from_table(&headers, &records);
    assert_eq!(rows[0], vec![("k".to_string(), "2".to_string())]);
}

#[test]
fn storage_custom_env_dir_is_used() {
    let dir = "/tmp/probe-env".to_string();
    let storage = Storage::new(Some(dir.clone()), Some("/home/x".to_string()), None).unwrap();
    assert_eq!(storage.dir(), dir.as_str());
}

#[test]
fn tests_custom_env_dir_is_used() {
    let storage = Storage::new(Some("/srv/probe".to_string()), None, None).unwrap();
    assert_eq!(storage.dir(), "/srv/probe");
}

#[test]
fn collections_dir_falls_back_to_home() {
    assert_eq!(collections_dir(None, Some("/home/ana".to_string()), Some("C:\\x".to_string())).unwrap(), "/home/ana/.probe/collections");
    assert_eq!(collections_dir(None, None, Some("/perfil/".to_string())).unwrap(), "/perfil/.probe/collections");
    assert_eq!(collections_dir(None, None, None).unwrap_err(), "no se pudo determinar el directorio de inicio del usuario");
    assert_eq!(csv_dir(None, Some("/home/ana".to_string()), None).unwrap(), "/home/ana/.probe/collections/csv");
}

#[test]
fn collection_files_use_sanitized_names() {
    let storage = Storage::at("/data".to_string());
    assert_eq!(storage.collection_path("Mi colección"), "/data/Mi colección.json");
    assert_eq!(storage.collection_path("a/b:c*d?e\"f<g>h|i\\j"), "/data/a_b_c_d_e_f_g_h_i_j.json");
    assert_eq!(sanitize_name("ok"), "ok");
    assert_eq!(json_stem("Mi colección.json"), Some("Mi colección".to_string()));
    assert_eq!(json_stem(".json"), None);
    assert_eq!(json_stem("notas.txt"), None);
}

#[test]
fn summaries_sort_by_name() {
    let v = vec![
        CollectionSummary { name: "b".to_string(), size: 2 },
        CollectionSummary { name: "a".to_string(), size: 1 },
        CollectionSummary { name: "c".to_string(), size: 3 },
    ];
    let sorted = sort_summaries(v);
    let names: Vec<&str> = sorted.iter().map(|s| s.name.as_str()).collect();
    assert_eq!(names, vec!["a", "b", "c"]);
    assert_eq!(sorted[0].size, 1);
}

#[test]
fn sanitized_names_round_trip_through_file_names() {
    let name = "api: v2/usuarios?";
    let once = sanitize_name(name);
    assert_eq!(once, "api_ v2_usuarios_");
    assert_eq!(sanitize_name(&once), once);
    let storage = Storage::at("/d/".to_string());
    let path = storage.collection_path(name);
    assert_eq!(path, "/d/api_ v2_usuarios_.json");
    let file_name = path.rsplit('/').next().unwrap();
    assert_eq!(json_stem(file_name), Some(once));
}
