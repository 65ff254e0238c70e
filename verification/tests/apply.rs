use dynein::apply::{check_template, PathExistenceChecker};

pub struct MockPathExistenceChecker {
    mock_file: String,
}

impl MockPathExistenceChecker {
    pub fn new(mock_file: &str) -> Self {
        Self {
            mock_file: mock_file.to_string(),
        }
    }
}

impl PathExistenceChecker for MockPathExistenceChecker {
    fn path_exists(&self, path: &str) -> bool {
        path == self.mock_file
    }
}

#[test]
fn test_check_template_with_acceptable_file() {
    let mock_checker = MockPathExistenceChecker::new("cfn.yaml");
    let result = check_template(&mock_checker);
    assert_eq!(result, Some("cfn.yaml"));
}

#[test]
fn test_check_template_without_acceptable_file() {
    let mock_checker = MockPathExistenceChecker::new("some_other_file.txt");
    let result = check_template(&mock_checker);
    assert_eq!(result, None);
}

#[test]
fn check_template_finds_later_names() {
    assert_eq!(check_template(&MockPathExistenceChecker::new("cfn.yml")), Some("cfn.yml"));
    assert_eq!(check_template(&MockPathExistenceChecker::new("cfn.json")), Some("cfn.json"));
}
