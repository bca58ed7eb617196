use query_graph_core::{
  BatchRelationDefinition, ComposedCompileError, ComposedQueryGraph, CompositionIssueCode,
  ConstraintDefinition, Expression, FieldDefinition, GraphDefinition, LiteralValue,
  MappedQueryGraph, OperationIssueCode, OrderByDefinition, OrderingDefinition, ParameterDefinition,
  ParameterValue, ProjectionDefinition, ProjectionFieldDefinition, QueryOperation,
  RelationCardinality, RelationalMapping, ScalarType, SemanticFunction, SourceDefinition,
  SourceMapping, SqlServerCompiler, SqlServerVersion, TableName,
};

fn root_graph() -> MappedQueryGraph {
  mapped_root(root_definition())
}

fn mapped_root(definition: GraphDefinition) -> MappedQueryGraph {
  MappedQueryGraph::new(
    definition.compile().unwrap(),
    RelationalMapping {
      sources: vec![("news".into(), SourceMapping::new(TableName::Name("News".into())))],
    },
  )
  .unwrap()
}

fn root_definition() -> GraphDefinition {
  let mut definition = GraphDefinition::new("news", "news");
  definition.sources = vec![SourceDefinition::new(
    "news",
    vec![
      FieldDefinition::new("id", ScalarType::Int64),
      FieldDefinition::new("idAttachment", ScalarType::Int64),
      FieldDefinition::new("idOrganisation", ScalarType::Int64),
      FieldDefinition::new("profileName", ScalarType::String),
    ],
  )];
  definition.parameters = vec![ParameterDefinition::required(
    "idOrganisation",
    ScalarType::Int64,
  )];
  definition.constraints = vec![ConstraintDefinition::always(Expression::eq(
    Expression::field("news", "idOrganisation"),
    Expression::parameter("idOrganisation"),
  ))];
  definition.projection = ProjectionDefinition {
    objects: Vec::new(),
    fields: vec![
      ProjectionFieldDefinition::new(vec!["id".into()], Expression::field("news", "id"))
        .selected_by_default(),
      ProjectionFieldDefinition::new(
        vec!["idAttachment".into()],
        Expression::field("news", "idAttachment"),
      ),
      ProjectionFieldDefinition::new(
        vec!["profile".into(), "name".into()],
        Expression::field("news", "profileName"),
      ),
    ],
  };
  definition
}

fn attachment_graph() -> MappedQueryGraph {
  let mut definition = GraphDefinition::new("attachmentsByIds", "attachment");
  definition.sources = vec![SourceDefinition::new(
    "attachment",
    vec![
      FieldDefinition::new("idAttachment", ScalarType::Int64),
      FieldDefinition::new("path", ScalarType::String),
      FieldDefinition::new("kind", ScalarType::String),
    ],
  )];
  definition.parameters = vec![
    ParameterDefinition::required_list("ids", ScalarType::Int64),
    ParameterDefinition::required("kind", ScalarType::String),
  ];
  definition.constraints = vec![
    ConstraintDefinition::always(Expression::in_parameter(
      Expression::field("attachment", "idAttachment"),
      "ids",
    )),
    ConstraintDefinition::always(Expression::eq(
      Expression::field("attachment", "kind"),
      Expression::parameter("kind"),
    )),
  ];
  definition.projection = ProjectionDefinition {
    objects: Vec::new(),
    fields: vec![
      ProjectionFieldDefinition::new(
        vec!["idAttachment".into()],
        Expression::field("attachment", "idAttachment"),
      ),
      ProjectionFieldDefinition::new(vec!["path".into()], Expression::field("attachment", "path")),
      ProjectionFieldDefinition::new(
        vec!["display".into()],
        Expression::Function {
          name: SemanticFunction::Concat,
          arguments: vec![
            Expression::field("attachment", "path"),
            Expression::literal(LiteralValue::String(" preview".into())),
          ],
        },
      ),
    ],
  };
  definition.orderings = vec![OrderingDefinition::new(
    "pathAsc",
    vec![OrderByDefinition::asc(Expression::field(
      "attachment",
      "path",
    ))],
  )];

  MappedQueryGraph::new(
    definition.compile().unwrap(),
    RelationalMapping {
      sources: vec![("attachment".into(), SourceMapping::new(TableName::Name("Attachment".into())))],
    },
  )
  .unwrap()
}

fn relation(name: &str) -> BatchRelationDefinition {
  BatchRelationDefinition {
    name: name.into(),
    from: "idAttachment".into(),
    to: "idAttachment".into(),
    parameter: "ids".into(),
    cardinality: RelationCardinality::One,
    parameters: vec![("kind".into(), ParameterValue::String("preview".into()))],
    ordering: Some("pathAsc".into()),
  }
}

fn organisation(id: i64) -> Vec<(String, ParameterValue)> {
  vec![("idOrganisation".into(), ParameterValue::Integer(id))]
}

#[test]
fn keeps_dotted_root_paths_and_defers_batch_compilation() {
  let graph = ComposedQueryGraph::new(root_graph())
    .with_batch_relation(attachment_graph(), relation("preview"))
    .unwrap()
    .with_batch_relation(attachment_graph(), relation("badge"))
    .unwrap();
  let operation = QueryOperation {
    select: Some(vec![
      "profile.name".into(),
      "preview.display".into(),
      "badge.path".into(),
    ]),
    parameters: organisation(7),
    ..QueryOperation::default()
  };

  let plan = graph
    .compile_sql_server_plan_with(&operation, &SqlServerCompiler::new(SqlServerVersion::V2008))
    .unwrap();

  assert_eq!(
    plan
      .root()
      .columns
      .iter()
      .map(|column| column.path.as_str())
      .collect::<Vec<_>>(),
    vec!["profile.name", "idAttachment"]
  );
  assert!(!plan.root().sql.contains("FROM [Attachment]"));

  let batches = plan.batches();
  assert_eq!(batches.len(), 2);
  assert!(batches.iter().all(|batch| batch.parent_key_injected));
  assert!(batches.iter().all(|batch| batch.child_key_injected));
  assert!(batches.iter().all(|batch| batch.key_parameter == "ids"));
  assert_eq!(
    batches[0].parameters.iter().find(|(name, _)| name == "kind").map(|(_, value)| value),
    Some(&ParameterValue::String("preview".into()))
  );

  let preview = plan
    .compile_batch("preview", &[ParameterValue::Integer(12), ParameterValue::Integer(18)])
    .unwrap();
  assert!(preview.sql.contains("FROM [Attachment]"));
  assert!(preview.sql.contains("COALESCE([t0].[path], N'') +"));
  assert_eq!(
    preview
      .columns
      .iter()
      .map(|column| column.path.as_str())
      .collect::<Vec<_>>(),
    vec!["display", "idAttachment"]
  );
  assert!(preview
    .bindings
    .iter()
    .any(|binding| binding.parameter == "ids" && binding.index == Some(1)));
  assert!(preview
    .bindings
    .iter()
    .any(|binding| binding.parameter == "kind"));
}

#[test]
fn reports_composition_errors_before_query_compilation() {
  let mut invalid = relation("profile");
  invalid.from = "missing".into();
  invalid.parameters = vec![("kind".into(), ParameterValue::Integer(42))];
  invalid.ordering = Some("missing".into());

  let issues = ComposedQueryGraph::new(root_graph())
    .with_batch_relation(attachment_graph(), invalid)
    .unwrap_err();
  let codes = issues
    .as_slice()
    .iter()
    .map(|issue| issue.code)
    .collect::<Vec<_>>();

  assert!(codes.contains(&CompositionIssueCode::ConflictingProjectionPath));
  assert!(codes.contains(&CompositionIssueCode::UnknownParentKey));
  assert!(codes.contains(&CompositionIssueCode::InvalidStaticParameterType));
  assert!(codes.contains(&CompositionIssueCode::UnknownChildOrdering));
}

#[test]
fn validates_key_values_when_the_deferred_statement_is_compiled() {
  let graph = ComposedQueryGraph::new(root_graph())
    .with_batch_relation(attachment_graph(), relation("preview"))
    .unwrap();
  let plan = graph
    .compile_sql_server_plan(&QueryOperation {
      select: Some(vec!["preview.path".into()]),
      parameters: organisation(7),
      ..QueryOperation::default()
    })
    .unwrap();

  let error = plan
    .compile_batch("preview", &[ParameterValue::String("not-an-id".into())])
    .unwrap_err();
  let ComposedCompileError::Sql(query_graph_core::SqlCompileError::Plan(
    query_graph_core::PlanError::Operation(issues),
  )) = error
  else {
    panic!("expected operation validation error");
  };

  assert_eq!(
    issues.as_slice()[0].code,
    OperationIssueCode::InvalidParameterType
  );
  assert_eq!(issues.as_slice()[0].location, "parameters.ids[0]");
}

#[test]
fn compiles_only_explicitly_selected_batch_relations() {
  let graph = ComposedQueryGraph::new(root_graph())
    .with_batch_relation(attachment_graph(), relation("preview"))
    .unwrap();
  let plan = graph
    .compile_sql_server_plan(&QueryOperation {
      parameters: organisation(7),
      ..QueryOperation::default()
    })
    .unwrap();

  assert_eq!(plan.batches().len(), 0);
  assert!(matches!(
    plan.compile_batch("preview", &[ParameterValue::Integer(12)]),
    Err(ComposedCompileError::UnknownSelectedBatchRelation(name)) if name == "preview"
  ));
}

fn issues_of(definition: BatchRelationDefinition) -> Vec<(CompositionIssueCode, String, String)> {
  ComposedQueryGraph::new(root_graph())
    .with_batch_relation(attachment_graph(), definition)
    .unwrap_err()
    .into_vec()
    .into_iter()
    .map(|issue| (issue.code, issue.location, issue.message))
    .collect()
}

#[test]
fn rejects_blank_dotted_and_repeated_relation_names() {
  assert_eq!(
    issues_of(relation("  ")),
    vec![(
      CompositionIssueCode::EmptyRelationName,
      "relations[0].name".to_string(),
      "batch relation name must not be empty".to_string()
    )]
  );
  assert_eq!(
    issues_of(relation("pre.view")),
    vec![(
      CompositionIssueCode::InvalidRelationName,
      "relations[0].name".to_string(),
      "batch relation name must be a single projection path segment".to_string()
    )]
  );
  let issues = ComposedQueryGraph::new(root_graph())
    .with_batch_relation(attachment_graph(), relation("preview"))
    .unwrap()
    .with_batch_relation(attachment_graph(), relation("preview"))
    .unwrap_err();
  assert_eq!(issues.as_slice().len(), 1);
  assert_eq!(issues.as_slice()[0].code, CompositionIssueCode::DuplicateRelationName);
  assert_eq!(issues.as_slice()[0].location, "relations[1].name");
  assert_eq!(
    issues.as_slice()[0].message,
    "batch relation \"preview\" is defined more than once"
  );
  assert_eq!(
    issues.message(),
    "query graph composition contains 1 issue(s)\n- DuplicateRelationName at relations[1].name: batch relation \"preview\" is defined more than once"
  );
}

#[test]
fn reports_each_key_issue_at_its_field() {
  let mut unknown = relation("preview");
  unknown.to = "missing".into();
  unknown.parameter = "missing".into();
  let codes = issues_of(unknown);
  assert!(codes.contains(&(
    CompositionIssueCode::UnknownChildKey,
    "relations[0].to".to_string(),
    "projection field \"missing\" is not defined".to_string()
  )));
  assert!(codes.contains(&(
    CompositionIssueCode::UnknownKeyParameter,
    "relations[0].parameter".to_string(),
    "parameter \"missing\" is not defined".to_string()
  )));

  let mut scalar_key = relation("preview");
  scalar_key.parameter = "kind".into();
  scalar_key.parameters = Vec::new();
  let codes = issues_of(scalar_key);
  assert!(codes.iter().any(|(code, location, _)| *code == CompositionIssueCode::KeyParameterNotList
    && location == "relations[0].parameter"));
  assert!(codes.iter().any(|(code, location, _)| *code == CompositionIssueCode::IncompatibleKeyTypes
    && location == "relations[0]"));

  let mut static_key = relation("preview");
  static_key.parameters.push(("ids".into(), ParameterValue::Array(Vec::new())));
  assert_eq!(
    issues_of(static_key),
    vec![(
      CompositionIssueCode::KeyParameterIsStatic,
      "relations[0].parameters.ids".to_string(),
      "the batch key parameter is supplied automatically".to_string()
    )]
  );
}

#[test]
fn checks_static_parameters_against_the_child_graph() {
  let mut missing = relation("preview");
  missing.parameters = Vec::new();
  let issues = issues_of(missing);
  assert_eq!(issues.len(), 1);
  assert_eq!(issues[0].0, CompositionIssueCode::MissingStaticParameter);
  assert_eq!(issues[0].1, "relations[0].parameters.kind");

  let mut unknown = relation("preview");
  unknown.parameters.push(("extra".into(), ParameterValue::Integer(1)));
  let issues = issues_of(unknown);
  assert_eq!(issues.len(), 1);
  assert_eq!(issues[0].0, CompositionIssueCode::UnknownStaticParameter);
  assert_eq!(issues[0].1, "relations[0].parameters.extra");
}

#[test]
fn reports_repeated_and_unknown_selections_of_a_composed_operation() {
  let graph = ComposedQueryGraph::new(root_graph())
    .with_batch_relation(attachment_graph(), relation("preview"))
    .unwrap();
  let error = graph
    .compile_oracle_plan(&QueryOperation {
      select: Some(vec!["id".into(), "id".into(), "preview.missing".into()]),
      parameters: organisation(7),
      ..QueryOperation::default()
    })
    .unwrap_err();
  let ComposedCompileError::Operation(issues) = error else {
    panic!("expected selection issues");
  };
  let issues = issues.into_vec();
  assert_eq!(issues.len(), 2);
  assert_eq!(issues[0].code, OperationIssueCode::DuplicateSelection);
  assert_eq!(issues[0].location, "select[1]");
  assert_eq!(issues[0].message, "projection field \"id\" is selected more than once");
  assert_eq!(issues[1].code, OperationIssueCode::UnknownSelection);
  assert_eq!(issues[1].location, "select[2]");
  assert_eq!(issues[1].message, "projection field \"preview.missing\" is not defined");
}

#[test]
fn keeps_requested_keys_and_reports_them_as_not_injected() {
  let graph = ComposedQueryGraph::new(root_graph())
    .with_batch_relation(attachment_graph(), relation("preview"))
    .unwrap();
  let plan = graph
    .compile_oracle_plan(&QueryOperation {
      select: Some(vec![
        "preview.idAttachment".into(),
        "idAttachment".into(),
        "preview.path".into(),
      ]),
      parameters: organisation(7),
      ..QueryOperation::default()
    })
    .unwrap();
  assert_eq!(
    plan.root().columns.iter().map(|column| column.path.as_str()).collect::<Vec<_>>(),
    vec!["idAttachment"]
  );
  let batches = plan.batches();
  assert_eq!(batches.len(), 1);
  assert_eq!(batches[0].name, "preview");
  assert!(!batches[0].parent_key_injected);
  assert!(!batches[0].child_key_injected);
  assert_eq!(batches[0].cardinality, RelationCardinality::One);

  let statement = plan.compile_batch("preview", &[ParameterValue::Integer(3)]).unwrap();
  assert_eq!(
    statement.columns.iter().map(|column| column.path.as_str()).collect::<Vec<_>>(),
    vec!["idAttachment", "path"]
  );
  assert!(statement.sql.contains("FROM \"Attachment\""));
  assert!(matches!(
    plan.compile_batch("badge", &[]),
    Err(ComposedCompileError::UnknownSelectedBatchRelation(name)) if name == "badge"
  ));
  assert_eq!(
    ComposedCompileError::UnknownSelectedBatchRelation("badge".into()).message(),
    "batch relation \"badge\" is not selected by the query plan"
  );
}

#[test]
fn pages_the_root_statement_only() {
  let mut definition = root_definition();
  definition.orderings = vec![OrderingDefinition::new(
    "idAsc",
    vec![OrderByDefinition::asc(Expression::field("news", "id"))],
  )];
  let graph = ComposedQueryGraph::new(mapped_root(definition))
    .with_batch_relation(attachment_graph(), relation("preview"))
    .unwrap();
  let plan = graph
    .compile_sql_server_plan(&QueryOperation {
      select: Some(vec!["id".into(), "preview.path".into()]),
      ordering: Some("idAsc".into()),
      parameters: organisation(7),
      offset: Some(20),
      limit: Some(10),
    })
    .unwrap();
  assert!(plan.root().sql.contains("OFFSET 20 ROWS FETCH NEXT 10 ROWS ONLY"));
  assert_eq!(
    plan.root().columns.iter().map(|column| column.path.as_str()).collect::<Vec<_>>(),
    vec!["id", "idAttachment"]
  );
  let batch = plan.compile_batch("preview", &[ParameterValue::Integer(5)]).unwrap();
  assert!(!batch.sql.contains("OFFSET"));
  assert!(batch.sql.contains("ORDER BY"));
  assert_eq!(
    batch.columns.iter().map(|column| column.path.as_str()).collect::<Vec<_>>(),
    vec!["path", "idAttachment"]
  );
}

#[test]
fn lists_every_composition_issue_in_order() {
  let mut invalid = relation("profile");
  invalid.from = "missing".into();
  invalid.parameters = vec![("kind".into(), ParameterValue::Integer(42))];
  invalid.ordering = Some("missing".into());
  assert_eq!(
    issues_of(invalid),
    vec![
      (
        CompositionIssueCode::ConflictingProjectionPath,
        "relations[0].name".to_string(),
        "batch relation \"profile\" conflicts with a root projection path".to_string()
      ),
      (
        CompositionIssueCode::UnknownParentKey,
        "relations[0].from".to_string(),
        "projection field \"missing\" is not defined".to_string()
      ),
      (
        CompositionIssueCode::UnknownChildOrdering,
        "relations[0].ordering".to_string(),
        "ordering \"missing\" is not defined by the graph".to_string()
      ),
      (
        CompositionIssueCode::InvalidStaticParameterType,
        "relations[0].parameters.kind".to_string(),
        "expected String".to_string()
      ),
    ]
  );
}
