use codeskel::pom::{extract_pom, modules_of};

const SIMPLE_POM: &str = r#"<?xml version="1.0"?>
<project>
  <groupId>com.example</groupId>
  <artifactId>billing-service</artifactId>
  <version>1.2.0</version>
  <dependencies>
    <dependency>
      <groupId>com.example</groupId>
      <artifactId>user-api</artifactId>
      <version>2.1.0</version>
    </dependency>
    <dependency>
      <groupId>com.example</groupId>
      <artifactId>core-lib</artifactId>
      <version>1.0.0</version>
    </dependency>
    <dependency>
      <groupId>org.springframework</groupId>
      <artifactId>spring-web-api</artifactId>
      <version>5.0</version>
    </dependency>
  </dependencies>
</project>"#;

const PROP_POM: &str = r#"<?xml version="1.0"?>
<project>
  <groupId>com.example</groupId>
  <artifactId>billing-service</artifactId>
  <version>${billing.version}</version>
  <properties>
    <billing.version>3.0.0</billing.version>
  </properties>
</project>"#;

#[test]
fn test_simple_pom_extraction() {
    let output = extract_pom(SIMPLE_POM, None).unwrap();
    assert_eq!(output.service_name, "billing-service");
    assert_eq!(output.group_id, "com.example");
    assert_eq!(output.version, "1.2.0");
}

#[test]
fn test_sdk_dep_filtering() {
    let output = extract_pom(SIMPLE_POM, None).unwrap();
    assert_eq!(output.internal_sdk_deps.len(), 1);
    assert_eq!(output.internal_sdk_deps[0].artifact_id, "user-api");
    // core-lib: not -api/-sdk suffix → excluded
    // spring-web-api: not com.example groupId → excluded
}

#[test]
fn test_property_version_resolution() {
    let output = extract_pom(PROP_POM, None).unwrap();
    assert_eq!(output.version, "3.0.0");
}

#[test]
fn pom_parent_supplies_group_and_properties() {
    let parent = r#"<project>
  <groupId>com.acme</groupId>
  <properties><api.version>9.9</api.version></properties>
  <dependencies>
    <dependency><groupId>com.acme.x</groupId><artifactId>pay-sdk</artifactId><version>${api.version}</version></dependency>
  </dependencies>
</project>"#;
    let module = r#"<project>
  <artifactId>orders</artifactId>
  <version>${api.version}</version>
</project>"#;
    let out = extract_pom(module, Some(parent)).unwrap();
    assert_eq!(out.service_name, "orders");
    assert_eq!(out.version, "9.9");
    assert_eq!(out.internal_sdk_deps.len(), 1);
    assert_eq!(out.internal_sdk_deps[0].artifact_id, "pay-sdk");
    assert_eq!(out.internal_sdk_deps[0].version, "9.9");
}

#[test]
fn pom_unresolved_property_kept_raw() {
    let pom = "<project><groupId>g</groupId><artifactId>a</artifactId><version>${missing}</version></project>";
    let out = extract_pom(pom, None).unwrap();
    assert_eq!(out.version, "${missing}");
}

#[test]
fn pom_group_required() {
    let pom = "<project><artifactId>a</artifactId></project>";
    assert_eq!(extract_pom(pom, None).err().as_deref(), Some("<groupId> not found in pom.xml or parent"));
}

#[test]
fn pom_malformed_is_error() {
    assert!(extract_pom("<project>", None).is_err());
}

#[test]
fn pom_modules_listed() {
    let root = "<project><modules><module> a </module><module></module><module>b</module></modules></project>";
    assert_eq!(modules_of(root).unwrap(), Some(vec!["a".to_string(), "b".to_string()]));
    assert_eq!(modules_of(SIMPLE_POM).unwrap(), None);
}
