use tucano_domain::import::{report_from_nodes, ImportStatus, XmlAttribute, XmlNode};

fn attribute(name: &str, value: &str) -> XmlAttribute {
    XmlAttribute { namespace: None, name: name.to_owned(), value: value.to_owned() }
}

fn element(name: &str, attributes: Vec<XmlAttribute>, parent: Option<usize>, children: Vec<usize>) -> XmlNode {
    XmlNode { element: true, namespace: None, name: name.to_owned(), attributes, parent, children }
}

#[test]
fn parsed_nodes_make_a_report_in_document_order() {
    let nodes = vec![
        element("testsuite", vec![], None, vec![1, 2, 3]),
        element("testcase", vec![attribute("classname", "Checkout"), attribute("name", "pays")], Some(0), vec![]),
        element("testcase", vec![attribute("classname", "Checkout"), attribute("name", "declines")], Some(0), vec![4]),
        element("testcase", vec![attribute("classname", "Checkout")], Some(0), vec![]),
        element("failure", vec![attribute("message", "card declined")], Some(2), vec![]),
    ];
    let report = report_from_nodes(&nodes);
    assert_eq!(report.errors, 1);
    let cases: Vec<(String, ImportStatus)> = report
        .cases
        .iter()
        .map(|case| (case.test_case_id.clone(), case.status))
        .collect();
    assert_eq!(
        cases,
        vec![
            ("Checkout.pays".to_owned(), ImportStatus::Passed),
            ("Checkout.declines".to_owned(), ImportStatus::Failed),
        ]
    );
}
