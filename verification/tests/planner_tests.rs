use nx_hash_plan::instruction::{instr_lt_exec, HashInstruction};
use nx_hash_plan::model::{
    DepsEntry, Input, NamedInputEntry, NamedTarget, NxJson, PlanError, ProjectGraph, ProjectNode,
    SplitInputs, Target, Task, TaskDeps, TaskGraph, TaskTarget,
};
use nx_hash_plan::planner::HashPlanner;

fn s(x: &str) -> String {
    x.to_string()
}

fn named_inputs_default() -> Vec<NamedInputEntry> {
    vec![NamedInputEntry {
        name: s("default"),
        inputs: vec![Input::FileSet(s("{projectRoot}/**/*"))],
    }]
}

fn node(name: &str, executor: Option<&str>) -> ProjectNode {
    ProjectNode {
        name: s(name),
        targets: vec![NamedTarget {
            name: s("build"),
            target: Target {
                executor: executor.map(|e| s(e)),
            },
        }],
        named_inputs: named_inputs_default(),
    }
}

fn split(self_inputs: Vec<Input>, deps_inputs: Vec<Input>) -> SplitInputs {
    SplitInputs {
        self_inputs,
        deps_inputs,
        deps_outputs: vec![],
        project_inputs: vec![],
    }
}

fn task(id: &str, project: &str) -> Task {
    Task {
        id: s(id),
        target: TaskTarget {
            project: s(project),
            target: s("build"),
        },
        outputs: vec![],
        inputs: split(
            vec![Input::FileSet(s("{projectRoot}/src/**"))],
            vec![Input::Inputs {
                input: s("default"),
                dependencies: true,
            }],
        ),
    }
}

/// Two projects depending on each other: planning must terminate and each
/// project contributes its configuration once.
fn cyclic_planner() -> (HashPlanner, TaskGraph) {
    let graph = ProjectGraph {
        nodes: vec![node("a", None), node("b", None)],
        external_nodes: vec![],
        dependencies: vec![
            DepsEntry {
                name: s("a"),
                deps: vec![s("b")],
            },
            DepsEntry {
                name: s("b"),
                deps: vec![s("a")],
            },
        ],
    };
    let planner = HashPlanner::new(s("/workspace"), NxJson { named_inputs: named_inputs_default() }, graph);
    let tg = TaskGraph {
        tasks: vec![task("a:build", "a")],
        dependencies: vec![],
    };
    (planner, tg)
}

fn count(plan: &Vec<HashInstruction>, x: &HashInstruction) -> usize {
    plan.iter().filter(|i| *i == x).count()
}

#[test]
fn cycle_terminates_and_visits_each_project_once() {
    let (planner, tg) = cyclic_planner();
    let ids = vec![s("a:build")];
    let plans = planner.get_plans(&ids, &tg).unwrap();
    assert_eq!(plans.len(), 1);
    let plan = &plans[0].1;
    assert_eq!(count(plan, &HashInstruction::ProjectConfiguration(s("a"))), 1);
    assert_eq!(count(plan, &HashInstruction::ProjectConfiguration(s("b"))), 1);
}

#[test]
fn plans_are_deterministic_across_calls() {
    let (planner, tg) = cyclic_planner();
    let ids = vec![s("a:build")];
    let first = planner.get_plans(&ids, &tg).unwrap();
    let second = planner.get_plans(&ids, &tg).unwrap();
    assert_eq!(first, second);
}

#[test]
fn plans_are_sorted_without_adjacent_duplicates() {
    let (planner, tg) = cyclic_planner();
    let ids = vec![s("a:build")];
    let plans = planner.get_plans(&ids, &tg).unwrap();
    let plan = &plans[0].1;
    for w in plan.windows(2) {
        assert!(instr_lt_exec(&w[0], &w[1]));
    }
}

#[test]
fn plans_contain_each_mandatory_workspace_instruction_once() {
    let (planner, tg) = cyclic_planner();
    let ids = vec![s("a:build")];
    let plans = planner.get_plans(&ids, &tg).unwrap();
    let plan = &plans[0].1;
    for name in [
        "{workspaceRoot}/nx.json",
        "{workspaceRoot}/.gitignore",
        "{workspaceRoot}/.nxignore",
    ] {
        assert_eq!(count(plan, &HashInstruction::WorkspaceFileSet(s(name))), 1);
    }
}

#[test]
fn non_first_party_executor_falls_back_to_all_external_dependencies() {
    let (planner, tg) = cyclic_planner();
    let ids = vec![s("a:build")];
    let plans = planner.get_plans(&ids, &tg).unwrap();
    let plan = &plans[0].1;
    assert_eq!(count(plan, &HashInstruction::AllExternalDependencies), 1);
}

#[test]
fn first_party_executor_resolves_to_its_own_package() {
    let graph = ProjectGraph {
        nodes: vec![node("app", Some("@nx/webpack:webpack"))],
        external_nodes: vec![s("npm:@nx/webpack")],
        dependencies: vec![DepsEntry { name: s("app"), deps: vec![] }],
    };
    let planner = HashPlanner::new(s("/ws"), NxJson { named_inputs: vec![] }, graph);
    let tg = TaskGraph {
        tasks: vec![task("app:build", "app")],
        dependencies: vec![],
    };
    let ids = vec![s("app:build")];
    let plans = planner.get_plans(&ids, &tg).unwrap();
    let plan = &plans[0].1;
    assert_eq!(count(plan, &HashInstruction::External(s("npm:@nx/webpack"))), 1);
    assert_eq!(count(plan, &HashInstruction::AllExternalDependencies), 0);
}

#[test]
fn unresolved_external_dependency_fails_with_names() {
    let graph = ProjectGraph {
        nodes: vec![node("app", None)],
        external_nodes: vec![s("npm:lodash")],
        dependencies: vec![DepsEntry { name: s("app"), deps: vec![] }],
    };
    let planner = HashPlanner::new(s("/ws"), NxJson { named_inputs: vec![] }, graph);
    let mut t = task("app:build", "app");
    t.inputs.self_inputs.push(Input::ExternalDependency(vec![s("left-pad")]));
    let tg = TaskGraph {
        tasks: vec![t],
        dependencies: vec![],
    };
    let ids = vec![s("app:build")];
    let err = planner.get_plans(&ids, &tg).unwrap_err();
    assert_eq!(
        err,
        PlanError::UnresolvedExternalDependency {
            project: s("app"),
            target: s("build"),
            dependency: s("left-pad"),
        }
    );
    assert_eq!(
        err.message(),
        "The externalDependency 'left-pad' for 'app:build' could not be found"
    );
}

#[test]
fn explicit_external_dependency_brings_its_closure() {
    let graph = ProjectGraph {
        nodes: vec![node("app", None)],
        external_nodes: vec![s("npm:lib-a"), s("npm:lib-b")],
        dependencies: vec![
            DepsEntry { name: s("app"), deps: vec![] },
            DepsEntry {
                name: s("npm:lib-a"),
                deps: vec![s("npm:lib-b")],
            },
        ],
    };
    let planner = HashPlanner::new(s("/ws"), NxJson { named_inputs: vec![] }, graph);
    let mut t = task("app:build", "app");
    t.inputs.self_inputs.push(Input::ExternalDependency(vec![s("lib-a")]));
    let tg = TaskGraph {
        tasks: vec![t],
        dependencies: vec![],
    };
    let ids = vec![s("app:build")];
    let plans = planner.get_plans(&ids, &tg).unwrap();
    let plan = &plans[0].1;
    assert_eq!(count(plan, &HashInstruction::External(s("npm:lib-a"))), 1);
    assert_eq!(count(plan, &HashInstruction::External(s("npm:lib-b"))), 1);
    assert_eq!(count(plan, &HashInstruction::AllExternalDependencies), 0);
}

#[test]
fn missing_task_reports_task_not_found() {
    let (planner, tg) = cyclic_planner();
    let ids = vec![s("ghost:build")];
    let err = planner.get_plans(&ids, &tg).unwrap_err();
    assert_eq!(err, PlanError::TaskNotFound { task_id: s("ghost:build") });
    assert_eq!(err.message(), "Task with id 'ghost:build' not found");
}

#[test]
fn project_pattern_inputs_apply_named_inputs_across_projects() {
    let graph = ProjectGraph {
        nodes: vec![node("app", None), node("lib-one", None), node("lib-two", None)],
        external_nodes: vec![],
        dependencies: vec![DepsEntry { name: s("app"), deps: vec![] }],
    };
    let planner = HashPlanner::new(s("/ws"), NxJson { named_inputs: vec![] }, graph);
    let mut t = task("app:build", "app");
    t.inputs.project_inputs.push(Input::Projects {
        input: s("default"),
        projects: vec![s("lib-*")],
    });
    let tg = TaskGraph {
        tasks: vec![t],
        dependencies: vec![],
    };
    let ids = vec![s("app:build")];
    let plans = planner.get_plans(&ids, &tg).unwrap();
    let plan = &plans[0].1;
    assert_eq!(count(plan, &HashInstruction::ProjectConfiguration(s("lib-one"))), 1);
    assert_eq!(count(plan, &HashInstruction::ProjectConfiguration(s("lib-two"))), 1);
    assert_eq!(count(plan, &HashInstruction::ProjectConfiguration(s("app"))), 1);
}

#[test]
fn bad_project_selector_fails() {
    let (planner, _) = cyclic_planner();
    let mut t = task("a:build", "a");
    t.inputs.project_inputs.push(Input::Projects {
        input: s("default"),
        projects: vec![s("lib[")],
    });
    let tg = TaskGraph {
        tasks: vec![t],
        dependencies: vec![],
    };
    let ids = vec![s("a:build")];
    let err = planner.get_plans(&ids, &tg).unwrap_err();
    assert_eq!(err, PlanError::ProjectSelectorError);
}

#[test]
fn dependency_outputs_name_upstream_task_outputs() {
    let graph = ProjectGraph {
        nodes: vec![node("app", None), node("lib", None)],
        external_nodes: vec![],
        dependencies: vec![
            DepsEntry { name: s("app"), deps: vec![] },
            DepsEntry { name: s("lib"), deps: vec![] },
        ],
    };
    let planner = HashPlanner::new(s("/ws"), NxJson { named_inputs: vec![] }, graph);
    let mut t = task("app:build", "app");
    t.inputs.deps_outputs.push(Input::DepsOutputs {
        dependent_tasks_output_files: s("**/*.d.ts"),
        transitive: false,
    });
    let mut lib_task = task("lib:build", "lib");
    lib_task.outputs.push(s("dist/lib"));
    let tg = TaskGraph {
        tasks: vec![t, lib_task],
        dependencies: vec![TaskDeps {
            task_id: s("app:build"),
            deps: vec![s("lib:build")],
        }],
    };
    let ids = vec![s("app:build")];
    let plans = planner.get_plans(&ids, &tg).unwrap();
    let plan = &plans[0].1;
    assert_eq!(
        count(
            plan,
            &HashInstruction::TaskOutput(s("**/*.d.ts"), vec![s("dist/lib")])
        ),
        1
    );
}

#[test]
fn dependency_outputs_with_missing_upstream_task_fail() {
    let (planner, _) = cyclic_planner();
    let mut t = task("a:build", "a");
    t.inputs.deps_outputs.push(Input::DepsOutputs {
        dependent_tasks_output_files: s("**/*"),
        transitive: false,
    });
    let tg = TaskGraph {
        tasks: vec![t],
        dependencies: vec![TaskDeps {
            task_id: s("a:build"),
            deps: vec![s("gone:build")],
        }],
    };
    let ids = vec![s("a:build")];
    let err = planner.get_plans(&ids, &tg).unwrap_err();
    assert_eq!(err, PlanError::TaskNotFound { task_id: s("gone:build") });
}

#[test]
fn runtime_and_environment_inputs_become_instructions() {
    let (planner, _) = cyclic_planner();
    let mut t = task("a:build", "a");
    t.inputs.self_inputs.push(Input::Runtime(s("node -v")));
    t.inputs.self_inputs.push(Input::Environment(s("CI")));
    let tg = TaskGraph {
        tasks: vec![t],
        dependencies: vec![],
    };
    let ids = vec![s("a:build")];
    let plans = planner.get_plans(&ids, &tg).unwrap();
    let plan = &plans[0].1;
    assert_eq!(count(plan, &HashInstruction::Runtime(s("node -v"))), 1);
    assert_eq!(count(plan, &HashInstruction::Environment(s("CI"))), 1);
}

#[test]
fn workspace_scoped_filesets_stay_workspace_scoped() {
    let (planner, _) = cyclic_planner();
    let mut t = task("a:build", "a");
    t.inputs.self_inputs.push(Input::FileSet(s("{workspaceRoot}/tools/**")));
    let tg = TaskGraph {
        tasks: vec![t],
        dependencies: vec![],
    };
    let ids = vec![s("a:build")];
    let plans = planner.get_plans(&ids, &tg).unwrap();
    let plan = &plans[0].1;
    assert_eq!(
        count(plan, &HashInstruction::WorkspaceFileSet(s("{workspaceRoot}/tools/**"))),
        1
    );
    assert_eq!(
        count(
            plan,
            &HashInstruction::ProjectFileSet(s("a"), s("{projectRoot}/src/**"))
        ),
        1
    );
}
