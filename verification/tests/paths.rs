use wham::paths::get_relative_path as relative_path;

#[test]
fn get_relative_path() {
    let path1 = "path/to/some_file.dat";
    let path2 = "another_file.dat";
    let path3 = "subfolder/another_file.dat";
    let relative2 = relative_path(&path1, &path2);
    assert_eq!("path/to/another_file.dat", relative2);
    let relative3 = relative_path(&path1, &path3);
    assert_eq!("path/to/subfolder/another_file.dat", relative3);
}

#[test]
fn relative_path_without_directory() {
    assert_eq!("data.dat", relative_path("metadata.dat", "data.dat"));
    assert_eq!("/w/d.dat", relative_path("/", "w/d.dat"));
}
