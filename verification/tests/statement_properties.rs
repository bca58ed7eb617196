use query_graph_core::{
  ConstraintDefinition, Expression, FieldDefinition, GraphDefinition, LiteralValue,
  MappedQueryGraph, OracleCompiler, OracleVersion, OrderByDefinition, OrderingDefinition,
  ParameterDefinition, ParameterValue, PlanError, ProjectionDefinition,
  ProjectionFieldDefinition, QueryOperation, RelationCardinality, RelationDefinition,
  RelationalMapping, ScalarType, SemanticFunction, SourceDefinition, SourceMapping,
  SqlCompileError, SqlServerCompiler, SqlServerVersion, TableName,
};

fn definition() -> GraphDefinition {
  let mut definition = GraphDefinition::new("people", "person");
  definition.sources = vec![
    SourceDefinition::new(
      "person",
      vec![
        FieldDefinition::new("id", ScalarType::Int64),
        FieldDefinition::new("idTeam", ScalarType::Int64),
        FieldDefinition::new("name", ScalarType::String).nullable(),
      ],
    ),
    SourceDefinition::new(
      "team",
      vec![
        FieldDefinition::new("id", ScalarType::Int64),
        FieldDefinition::new("title", ScalarType::String),
      ],
    ),
  ];
  definition.parameters = vec![ParameterDefinition::required("minimumId", ScalarType::Int64)];
  definition.relations = vec![RelationDefinition::new(
    "team",
    "person",
    "team",
    Expression::eq(
      Expression::field("person", "idTeam"),
      Expression::field("team", "id"),
    ),
  )];
  definition.constraints = vec![ConstraintDefinition::always(Expression::GreaterThanOrEqual {
    left: Box::new(Expression::field("person", "id")),
    right: Box::new(Expression::parameter("minimumId")),
  })];
  definition.projection = ProjectionDefinition::new(vec![
    ProjectionFieldDefinition::new(vec!["id".into()], Expression::field("person", "id"))
      .selected_by_default(),
    ProjectionFieldDefinition::new(vec!["name".into()], Expression::field("person", "name"))
      .selected_by_default(),
    ProjectionFieldDefinition::new(
      vec!["team".into(), "title".into()],
      Expression::field("team", "title"),
    ),
  ]);
  definition
}

fn mapping() -> RelationalMapping {
  RelationalMapping {
    sources: vec![
      ("person".into(), SourceMapping::new(TableName::Name("Person".into()))),
      ("team".into(), SourceMapping::new(TableName::Name("Team]Table".into()))),
    ],
  }
}

fn graph_of(definition: GraphDefinition) -> MappedQueryGraph {
  MappedQueryGraph::new(definition.compile().unwrap(), mapping()).unwrap()
}

fn minimum(value: i64) -> Vec<(String, ParameterValue)> {
  vec![("minimumId".into(), ParameterValue::Integer(value))]
}

#[test]
fn plans_no_relation_when_nothing_needs_it() {
  let statement = graph_of(definition())
    .compile_sql_server(&QueryOperation {
      parameters: minimum(1),
      ..QueryOperation::default()
    })
    .unwrap();

  assert!(statement.relations.is_empty());
  assert!(!statement.sql.contains("JOIN"));
  assert_eq!(
    statement.sql,
    "SELECT\n  [t0].[id] AS [c0],\n  [t0].[name] AS [c1]\nFROM [Person] AS [t0]\nWHERE\n  ([t0].[id] >= @p0)"
  );
}

#[test]
fn plans_the_relation_that_a_selected_field_needs() {
  let statement = graph_of(definition())
    .compile_sql_server(&QueryOperation {
      select: Some(vec!["team.title".into()]),
      parameters: minimum(1),
      ..QueryOperation::default()
    })
    .unwrap();

  assert_eq!(statement.relations.len(), 1);
  assert_eq!(statement.relations[0].name, "team");
  assert!(!statement.relations[0].required);
  assert_eq!(statement.relations[0].cardinality, RelationCardinality::One);
  assert!(statement
    .sql
    .contains("LEFT JOIN [Team]]Table] AS [t1]\n  ON ([t0].[idTeam] = [t1].[id])"));
}

#[test]
fn both_dialects_describe_the_same_result() {
  let graph = graph_of(definition());
  let operation = QueryOperation {
    select: Some(vec!["team.title".into(), "id".into()]),
    parameters: minimum(3),
    ..QueryOperation::default()
  };

  let sql_server = graph.compile_sql_server(&operation).unwrap();
  let oracle = graph.compile_oracle(&operation).unwrap();

  assert_eq!(sql_server.columns, oracle.columns);
  assert_eq!(sql_server.objects, oracle.objects);
  assert_eq!(sql_server.relations, oracle.relations);
  assert_eq!(sql_server.bindings, oracle.bindings);
  assert_ne!(sql_server.sql, oracle.sql);
}

#[test]
fn planning_errors_come_first_in_every_dialect() {
  let graph = graph_of(definition());
  let operation = QueryOperation {
    select: Some(vec!["missing".into()]),
    parameters: minimum(3),
    ..QueryOperation::default()
  };

  assert!(matches!(
    graph.compile_sql_server(&operation),
    Err(SqlCompileError::Plan(PlanError::Operation(_)))
  ));
  assert!(matches!(
    graph.compile_oracle(&operation),
    Err(SqlCompileError::Plan(PlanError::Operation(_)))
  ));
}

#[test]
fn refuses_a_page_of_an_unordered_result() {
  let graph = graph_of(definition());
  let operation = QueryOperation {
    parameters: minimum(3),
    limit: Some(10),
    ..QueryOperation::default()
  };

  let error = graph.compile_sql_server(&operation).unwrap_err();
  assert!(matches!(
    error,
    SqlCompileError::PaginationRequiresOrder { dialect: "SQL Server" }
  ));
  assert_eq!(error.message(), "SQL Server pagination requires a default order");
  assert!(matches!(
    graph.compile_oracle(&operation),
    Err(SqlCompileError::PaginationRequiresOrder { dialect: "Oracle" })
  ));
}

#[test]
fn pages_an_ordered_result_from_offset_zero() {
  let mut definition = definition();
  definition.orderings = vec![OrderingDefinition::new(
    "byId",
    vec![OrderByDefinition::desc(Expression::field("person", "id"))],
  )
  .selected_by_default()];
  let statement = graph_of(definition)
    .compile_oracle(&QueryOperation {
      parameters: minimum(3),
      limit: Some(7),
      ..QueryOperation::default()
    })
    .unwrap();

  assert!(statement
    .sql
    .ends_with("ORDER BY\n  \"t0\".\"id\" DESC\nOFFSET 0 ROWS FETCH NEXT 7 ROWS ONLY"));
}

#[test]
fn keeps_parameter_values_out_of_the_sql() {
  let graph = graph_of(definition());
  let first = graph
    .compile_sql_server(&QueryOperation {
      parameters: minimum(3),
      ..QueryOperation::default()
    })
    .unwrap();
  let second = graph
    .compile_sql_server(&QueryOperation {
      parameters: minimum(987_654_321),
      ..QueryOperation::default()
    })
    .unwrap();

  assert_eq!(first, second);
  assert!(!first.sql.contains("987654321"));
}

#[test]
fn binds_a_repeated_parameter_once() {
  let mut definition = definition();
  definition.constraints.push(ConstraintDefinition::always(Expression::NotEq {
    left: Box::new(Expression::field("person", "idTeam")),
    right: Box::new(Expression::parameter("minimumId")),
  }));
  let statement = graph_of(definition)
    .compile_sql_server(&QueryOperation {
      parameters: minimum(3),
      ..QueryOperation::default()
    })
    .unwrap();

  assert_eq!(statement.bindings.len(), 1);
  assert_eq!(statement.bindings[0].name, "p0");
  assert_eq!(statement.bindings[0].parameter, "minimumId");
  assert_eq!(statement.bindings[0].scalar_type, ScalarType::Int64);
  assert_eq!(statement.bindings[0].index, None);
  assert_eq!(statement.sql.matches("@p0").count(), 2);
  assert!(statement.sql.contains("([t0].[idTeam] <> @p0)"));
}

#[test]
fn renders_comparisons_with_null_as_null_tests() {
  let mut definition = definition();
  definition.constraints.push(ConstraintDefinition::always(Expression::NotEq {
    left: Box::new(Expression::literal(LiteralValue::Null)),
    right: Box::new(Expression::field("person", "name")),
  }));
  let statement = graph_of(definition)
    .compile_sql_server(&QueryOperation {
      parameters: minimum(3),
      ..QueryOperation::default()
    })
    .unwrap();

  assert!(statement.sql.contains("\n  AND ([t0].[name] IS NOT NULL)"));
}

#[test]
fn renders_oracle_functions_and_quotes() {
  let mut definition = definition();
  definition.projection.fields[1].expression = Expression::Function {
    name: SemanticFunction::Upper,
    arguments: vec![Expression::field("person", "name")],
  };
  let statement = graph_of(definition)
    .compile_oracle_with(
      &QueryOperation {
        parameters: minimum(3),
        ..QueryOperation::default()
      },
      &OracleCompiler::new(OracleVersion::V19c),
    )
    .unwrap();

  assert!(statement.sql.contains("UPPER(\"t0\".\"name\") AS \"c1\""));
  assert!(statement.sql.contains("(\"t0\".\"id\" >= :p0)"));
}

#[test]
fn reports_compile_errors_as_text() {
  let mut definition = definition();
  definition.relations[0].cardinality = RelationCardinality::Many;
  let graph = graph_of(definition);
  let error = graph
    .compile_sql_server_with(
      &QueryOperation {
        select: Some(vec!["team.title".into()]),
        parameters: minimum(3),
        limit: Some(2),
        ..QueryOperation::default()
      },
      &SqlServerCompiler::new(SqlServerVersion::V2019),
    )
    .unwrap_err();

  assert_eq!(
    error.message(),
    "pagination through many relation \"team\" requires a split query plan"
  );
}

#[test]
fn reports_operation_issues_as_text() {
  let error = graph_of(definition())
    .compile_sql_server(&QueryOperation::default())
    .unwrap_err();

  let SqlCompileError::Plan(PlanError::Operation(issues)) = &error else {
    panic!("expected operation issues");
  };
  assert_eq!(issues.as_slice().len(), 1);
  assert!(error
    .message()
    .starts_with("query operation contains 1 issue(s)\n- MissingParameter at parameters.minimumId: "));
}

#[test]
fn keeps_compiler_versions() {
  assert_eq!(SqlServerCompiler::default().version(), SqlServerVersion::V2012);
  assert_eq!(OracleCompiler::default().version(), OracleVersion::V12c);
  assert_eq!(SqlServerVersion::V2016.as_str(), "2016");
  assert_eq!(OracleVersion::V23ai.as_str(), "23ai");
  assert_eq!(RelationCardinality::Many.as_str(), "many");
}

#[test]
fn names_the_fields_an_expression_reads() {
  let expression = Expression::and(vec![
    Expression::eq(
      Expression::field("person", "id"),
      Expression::field("team", "id"),
    ),
    Expression::exists_where(
      "team",
      Expression::eq(Expression::field("team", "title"), Expression::parameter("x")),
    ),
  ]);

  let fields = expression
    .for_each_field()
    .into_iter()
    .map(|(source, field)| format!("{source}.{field}"))
    .collect::<Vec<_>>();
  assert_eq!(fields, vec!["person.id", "team.id", "team.title"]);
}

#[test]
fn error_conversions_wrap_the_cause() {
  let issues = query_graph_core::OperationIssues::from_vec(Vec::new());
  let plan: query_graph_core::PlanError = issues.into();
  assert!(matches!(plan, query_graph_core::PlanError::Operation(_)));
  let sql: SqlCompileError = plan.into();
  assert!(matches!(sql, SqlCompileError::Plan(query_graph_core::PlanError::Operation(_))));
  let composed: query_graph_core::ComposedCompileError = sql.into();
  assert!(matches!(composed, query_graph_core::ComposedCompileError::Sql(SqlCompileError::Plan(_))));
  let composed: query_graph_core::ComposedCompileError =
    query_graph_core::OperationIssues::from_vec(Vec::new()).into();
  assert!(matches!(composed, query_graph_core::ComposedCompileError::Operation(_)));
  assert_eq!(
    query_graph_core::TableName::from(String::from("Staff")),
    query_graph_core::TableName::Name("Staff".into())
  );
}

#[test]
fn records_the_shortest_relation_path_of_each_source() {
  let mut d = GraphDefinition::new("diamond", "a");
  d.sources = vec![
    SourceDefinition::new("a", vec![FieldDefinition::new("id", ScalarType::Int64)]),
    SourceDefinition::new("b", vec![FieldDefinition::new("id", ScalarType::Int64)]),
    SourceDefinition::new("c", vec![FieldDefinition::new("id", ScalarType::Int64)]),
    SourceDefinition::new("d", vec![FieldDefinition::new("id", ScalarType::Int64)]),
  ];
  let on = |from: &str, to: &str| Expression::eq(Expression::field(from, "id"), Expression::field(to, "id"));
  d.relations = vec![
    RelationDefinition::new("toB", "a", "b", on("a", "b")),
    RelationDefinition::new("bToC", "b", "c", on("b", "c")),
    RelationDefinition::new("cToD", "c", "d", on("c", "d")),
    RelationDefinition::new("toC", "a", "c", on("a", "c")),
  ];
  let topology = query_graph_core::analysis::topology::GraphTopology::build(&d);
  assert_eq!(topology.relation_path(0), Some(&Vec::<usize>::new()));
  assert_eq!(topology.relation_path(1), Some(&vec![0]));
  assert_eq!(topology.relation_path(2), Some(&vec![3]));
  assert_eq!(topology.relation_path(3), Some(&vec![3, 2]));
}
