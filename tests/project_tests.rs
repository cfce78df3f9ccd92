use codemarks::{detect_project_name, manifest_name, ManifestFiles, ManifestKind};

fn no_manifests() -> ManifestFiles {
    ManifestFiles {
        cargo_toml: None,
        package_json: None,
        go_mod: None,
        build_sbt: None,
        pom_xml: None,
        build_gradle: None,
        build_gradle_kts: None,
        mix_exs: None,
        pyproject_toml: None,
        setup_py: None,
    }
}

fn dir() -> Option<String> {
    Some("some_dir".to_string())
}

#[test]
fn test_detect_project_name_rust() {
    let mut m = no_manifests();
    m.cargo_toml = Some("[package]\nname = \"my-rust-project\"\nversion = \"0.1.0\"".to_string());
    assert_eq!(detect_project_name(&m, &dir()), "my-rust-project");
}

#[test]
fn test_detect_project_name_nodejs() {
    let mut m = no_manifests();
    m.package_json = Some(r#"{"name": "my-node-project", "version": "1.0.0"}"#.to_string());
    assert_eq!(detect_project_name(&m, &dir()), "my-node-project");
}

#[test]
fn test_detect_project_name_go() {
    let mut m = no_manifests();
    m.go_mod = Some("module github.com/user/my-go-project\n\ngo 1.21".to_string());
    assert_eq!(detect_project_name(&m, &dir()), "my-go-project");
}

#[test]
fn test_detect_project_name_fallback() {
    let m = no_manifests();
    let name = detect_project_name(&m, &Some(".tmpAbC123".to_string()));
    assert!(!name.is_empty());
    assert_ne!(name, "unknown");
    assert_eq!(name, ".tmpAbC123");
}

#[test]
fn test_detect_project_name_scala() {
    let mut m = no_manifests();
    m.build_sbt = Some(
        r#"ThisBuild / version := "0.1.0-SNAPSHOT"

ThisBuild / scalaVersion := "3.3.0"

lazy val root = (project in file("."))
  .settings(
    name := "my-scala-project",
    libraryDependencies += "org.scalatest" %% "scalatest" % "3.2.15" % Test
  )"#
        .to_string(),
    );
    assert_eq!(detect_project_name(&m, &dir()), "my-scala-project");
}

#[test]
fn test_detect_project_name_java_maven() {
    let mut m = no_manifests();
    m.pom_xml = Some(
        r#"<?xml version="1.0" encoding="UTF-8"?>
<project xmlns="http://maven.apache.org/POM/4.0.0"
         xmlns:xsi="http://www.w3.org/2001/XMLSchema-instance"
         xsi:schemaLocation="http://maven.apache.org/POM/4.0.0
                             http://maven.apache.org/xsd/maven-4.0.0.xsd">
    <modelVersion>4.0.0</modelVersion>
    <groupId>com.example</groupId>
    <artifactId>my-java-maven-project</artifactId>
    <version>1.0.0</version>
    <packaging>jar</packaging>
</project>"#
            .to_string(),
    );
    assert_eq!(detect_project_name(&m, &dir()), "my-java-maven-project");
}

#[test]
fn test_detect_project_name_java_gradle() {
    let mut m = no_manifests();
    m.build_gradle = Some(
        r#"plugins {
    id 'java'
    id 'application'
}

rootProject.name = "my-java-gradle-project"

group = 'com.example'
version = '1.0.0'
"#
        .to_string(),
    );
    assert_eq!(detect_project_name(&m, &dir()), "my-java-gradle-project");
}

#[test]
fn test_detect_project_name_java_gradle_kts() {
    let mut m = no_manifests();
    m.build_gradle_kts = Some(
        r#"plugins {
    kotlin("jvm") version "1.9.0"
    application
}

rootProject.name = "my-kotlin-project"

group = "com.example"
version = "1.0.0"
"#
        .to_string(),
    );
    assert_eq!(detect_project_name(&m, &dir()), "my-kotlin-project");
}

#[test]
fn test_detect_project_name_elixir() {
    let mut m = no_manifests();
    m.mix_exs = Some(
        r#"defmodule MyElixirProject.MixProject do
  use Mix.Project

  def project do
    [
      app: :my_elixir_project,
      version: "0.1.0",
      elixir: "~> 1.14",
      start_permanent: Mix.env() == :prod,
      deps: deps()
    ]
  end
end"#
            .to_string(),
    );
    assert_eq!(detect_project_name(&m, &dir()), "my_elixir_project");
}

#[test]
fn test_detect_project_name_python_pyproject() {
    let mut m = no_manifests();
    m.pyproject_toml = Some(
        r#"[build-system]
requires = ["hatchling"]
build-backend = "hatchling.build"

[project]
name = "my-python-project"
version = "0.1.0"
authors = [
    {name = "Author Name", email = "author@example.com"}
]"#
        .to_string(),
    );
    assert_eq!(detect_project_name(&m, &dir()), "my-python-project");
}

#[test]
fn test_detect_project_name_python_setup_py() {
    let mut m = no_manifests();
    m.setup_py = Some(
        r#"from setuptools import setup, find_packages

setup(
    name="my-python-setup-project",
    version="1.0.0",
    author="Author Name",
)"#
        .to_string(),
    );
    assert_eq!(detect_project_name(&m, &dir()), "my-python-setup-project");
}

#[test]
fn test_detect_project_name_invalid_directory() {
    let m = no_manifests();
    assert_eq!(detect_project_name(&m, &Some("exist".to_string())), "exist");
    assert_eq!(detect_project_name(&no_manifests(), &None), "unknown");
}

#[test]
fn manifest_preference_order() {
    let mut m = no_manifests();
    m.setup_py = Some("setup(name='py-name')".to_string());
    m.go_mod = Some("module example.com/go-name".to_string());
    assert_eq!(detect_project_name(&m, &dir()), "go-name");
    m.cargo_toml = Some("[package]\nname = \"rs-name\"".to_string());
    assert_eq!(detect_project_name(&m, &dir()), "rs-name");
}

#[test]
fn unusable_manifest_falls_through() {
    let mut m = no_manifests();
    m.package_json = Some("not json".to_string());
    m.pom_xml = Some("<artifactId></artifactId>".to_string());
    m.setup_py = Some("setup(name='single')".to_string());
    assert_eq!(detect_project_name(&m, &dir()), "single");
    m.package_json = Some(r#"{"name": 7}"#.to_string());
    assert_eq!(detect_project_name(&m, &dir()), "single");
}

#[test]
fn manifest_name_per_kind() {
    assert_eq!(ManifestKind::GoMod.file_name(), "go.mod");
    assert_eq!(manifest_name(ManifestKind::GoMod, "module plain\n").as_deref(), Some("plain"));
    assert_eq!(manifest_name(ManifestKind::GoMod, "go 1.21\nmodule late").as_deref(), None);
    assert_eq!(
        manifest_name(ManifestKind::CargoToml, "  name=  \"spaced\"  \r\nversion = \"1\"").as_deref(),
        Some("spaced")
    );
    assert_eq!(
        manifest_name(ManifestKind::PyprojectToml, "name = 'single-quoted'").as_deref(),
        Some("single-quoted")
    );
    assert_eq!(manifest_name(ManifestKind::MixExs, "app: name_without_colon").as_deref(), None);
    assert_eq!(manifest_name(ManifestKind::PomXml, "<artifactId>  id  </artifactId>").as_deref(), Some("id"));
    assert_eq!(manifest_name(ManifestKind::SetupPy, "name=\"a'b\"").as_deref(), Some("a'b"));
    assert_eq!(manifest_name(ManifestKind::SetupPy, "name=unquoted").as_deref(), None);
}
