use exercises::department::Company;

#[test]
fn add_and_list_sorted() {
    let mut company = Company::new();
    company.add_employee("Bob", "Engineering");
    company.add_employee("Alice", "Engineering");
    let listed = company.list_department("Engineering").unwrap();
    assert_eq!(listed, vec!["Alice".to_string(), "Bob".to_string()]);
}

#[test]
fn list_unknown_department_is_none() {
    let company = Company::new();
    assert!(company.list_department("Sales").is_none());
}

#[test]
fn remove_unknown_department_fails() {
    let mut company = Company::new();
    company.add_employee("Alice", "Engineering");
    let result = company.remove_employee("Alice", "Sales");
    assert_eq!(result, Err("Department Sales not found.".to_string()));
}

#[test]
fn remove_unknown_employee_fails() {
    let mut company = Company::new();
    company.add_employee("Alice", "Engineering");
    let result = company.remove_employee("Carol", "Engineering");
    assert_eq!(
        result,
        Err("Employee Carol not found in the Engineering department.".to_string())
    );
}

#[test]
fn removing_last_employee_drops_department() {
    let mut company = Company::new();
    company.add_employee("Alice", "Engineering");
    assert_eq!(company.remove_employee("Alice", "Engineering"), Ok(()));
    assert!(company.list_department("Engineering").is_none());
}

#[test]
fn move_between_departments() {
    let mut company = Company::new();
    company.add_employee("Alice", "Engineering");
    company.add_employee("Bob", "Sales");
    assert_eq!(company.move_employee("Alice", "Engineering", "Sales"), Ok(()));
    assert!(company.list_department("Engineering").is_none());
    let sales = company.list_department("Sales").unwrap();
    assert_eq!(sales, vec!["Alice".to_string(), "Bob".to_string()]);
}

#[test]
fn list_all_sorted_by_department() {
    let mut company = Company::new();
    company.add_employee("Carol", "Sales");
    company.add_employee("Bob", "Engineering");
    company.add_employee("Alice", "Engineering");
    let all = company.list_all();
    assert_eq!(
        all,
        vec![
            (
                "Engineering".to_string(),
                vec!["Alice".to_string(), "Bob".to_string()]
            ),
            ("Sales".to_string(), vec!["Carol".to_string()]),
        ]
    );
}

#[test]
fn process_add_command() {
    let mut company = Company::new();
    let reply = company.process_input("Add Sally to Engineering");
    assert_eq!(reply, "Added Sally to Engineering department.");
}

#[test]
fn process_remove_command() {
    let mut company = Company::new();
    company.process_input("Add Sally to Engineering");
    let reply = company.process_input("Remove Sally from Engineering");
    assert_eq!(reply, "Removed Sally from the Engineering department.");
    let reply = company.process_input("Remove Sally from Engineering");
    assert_eq!(reply, "Department Engineering not found.");
}

#[test]
fn process_list_command() {
    let mut company = Company::new();
    company.process_input("Add Sally to Engineering");
    company.process_input("Add Amir to Engineering");
    let reply = company.process_input("List Engineering");
    assert_eq!(reply, "Employees in the Engineering department:\nAmir\nSally");
    let reply = company.process_input("List Sales");
    assert_eq!(reply, "No employees found in the Sales department.");
}

#[test]
fn process_list_all_command() {
    let mut company = Company::new();
    assert_eq!(
        company.process_input("List All"),
        "No employees found in the company."
    );
    company.process_input("Add Sally to Engineering");
    company.process_input("Add Amir to Sales");
    let reply = company.process_input("  List All  ");
    assert_eq!(
        reply,
        "Employees in the Engineering department:\nSally\n\nEmployees in the Sales department:\nAmir"
    );
}

#[test]
fn process_move_command() {
    let mut company = Company::new();
    company.process_input("Add Sally to Engineering");
    let reply = company.process_input("Move Sally from Engineering to Sales");
    assert_eq!(
        reply,
        "Moved Sally from the Engineering department to the Sales department."
    );
}

#[test]
fn process_invalid_command() {
    let mut company = Company::new();
    assert_eq!(
        company.process_input("Fire everyone"),
        "Invalid command. Please try again."
    );
}
