//! Demonstration data: the projects a new installation starts with.
use crate::models::{Priority, Project, ProjectStatus, Task, TaskStatus};
use vstd::prelude::*;

verus! {

fn owned(s: &str) -> (r: String)
    ensures
        r@ == s@,
{
    s.to_owned()
}

fn owned_list(items: &[&str]) -> (r: Vec<String>)
    ensures
        r@.len() == items@.len(),
        forall|k: int| 0 <= k < items@.len() ==> (#[trigger] r@[k])@ == items@[k]@,
{
    let mut r: Vec<String> = Vec::new();
    let mut i: usize = 0;
    while i < items.len()
        invariant
            i <= items@.len(),
            r@.len() == i,
            forall|k: int| 0 <= k < i ==> (#[trigger] r@[k])@ == items@[k]@,
        decreases items@.len() - i,
    {
        r.push(owned(items[i]));
        i = i + 1;
    }
    r
}

#[allow(clippy::too_many_arguments)]
fn demo_task(
    id: &str,
    title: &str,
    description: &str,
    status: TaskStatus,
    assignee: Option<&str>,
    priority: Priority,
    start: &str,
    end: &str,
    hours_bits: u64,
    tags: &[&str],
) -> (t: Task)
    ensures
        t.id@ == id@,
        t.title@ == title@,
        t.description matches Some(d) && d@ == description@,
        t.status == status,
        t.assignee is Some <==> assignee is Some,
        assignee is Some ==> t.assignee->0@ == assignee->0@,
        t.priority == priority,
        t.start_date matches Some(d) && d@ == start@,
        t.end_date matches Some(d) && d@ == end@,
        t.estimated_hours == Some(hours_bits),
        crate::text::views_of(t.tags@) == tags@.map_values(|x: &str| x@),
{
    Task {
        id: owned(id),
        title: owned(title),
        description: Some(owned(description)),
        status,
        assignee: match assignee {
            Some(a) => Some(owned(a)),
            None => None,
        },
        priority,
        start_date: Some(owned(start)),
        end_date: Some(owned(end)),
        estimated_hours: Some(hours_bits),
        tags: {
            let v = owned_list(tags);
            assert(crate::text::views_of(v@) =~= tags@.map_values(|x: &str| x@));
            v
        },
    }
}

/// The ids, titles and states of the demo tasks, project by project.
pub open spec fn demo_task_ids() -> Seq<Seq<Seq<char>>> {
    seq![seq!["t1"@, "t2"@, "t3"@, "t4"@], seq!["t5"@, "t6"@, "t7"@], seq!["t8"@, "t9"@, "t10"@]]
}

pub open spec fn demo_task_titles() -> Seq<Seq<Seq<char>>> {
    seq![seq!["Modelo de datos de productos"@, "API de movimientos de stock"@, "Pantalla de inventario"@, "Alertas de reposición"@], seq!["Definición de alcance"@, "Diseño del catálogo"@, "Integración de pagos"@], seq!["Módulo de puntos"@, "App nativa iOS/Android"@, "Lanzamiento en tiendas"@]]
}

pub open spec fn demo_task_states() -> Seq<Seq<TaskStatus>> {
    seq![seq![TaskStatus::Done, TaskStatus::InProgress, TaskStatus::InProgress, TaskStatus::Todo], seq![TaskStatus::InProgress, TaskStatus::Todo, TaskStatus::Todo], seq![TaskStatus::Done, TaskStatus::Done, TaskStatus::Done]]
}

/// The descriptions of the demo tasks, project by project.
pub open spec fn demo_task_descriptions() -> Seq<Seq<Seq<char>>> {
    seq![seq!["Entidades, relaciones y migraciones iniciales."@, "Alta, baja y ajuste de existencias."@, "Tabla con filtros y exportación a CSV."@, "Notificaciones por email bajo umbral mínimo."@], seq!["Requerimientos y mapeo de flujos de compra."@, "Wireframes de listado y detalle de producto."@, "Evaluación de proveedores y sandbox."@], seq!["Acumulación y canje de puntos por compras."@, "Cliente móvil con wallet de beneficios."@, "Publicación y revisión de releases."@]]
}

/// Who each demo task is assigned to, if anyone.
pub open spec fn demo_task_assignees() -> Seq<Seq<Option<Seq<char>>>> {
    seq![seq![Some("María García"@), Some("Juan Pérez"@), None, Some("Juan Pérez"@)], seq![Some("Carlos López"@), None, None], seq![Some("Ana Ruiz"@), Some("Pedro Díaz"@), Some("Ana Ruiz"@)]]
}

pub open spec fn demo_task_priorities() -> Seq<Seq<Priority>> {
    seq![seq![Priority::High, Priority::High, Priority::Medium, Priority::Low], seq![Priority::High, Priority::Medium, Priority::Medium], seq![Priority::High, Priority::Medium, Priority::Low]]
}

pub open spec fn demo_task_starts() -> Seq<Seq<Seq<char>>> {
    seq![seq!["2026-08-03"@, "2026-08-15"@, "2026-09-01"@, "2026-10-01"@], seq!["2026-09-01"@, "2026-09-16"@, "2026-10-06"@], seq!["2026-03-10"@, "2026-04-01"@, "2026-06-20"@]]
}

pub open spec fn demo_task_ends() -> Seq<Seq<Seq<char>>> {
    seq![seq!["2026-08-14"@, "2026-09-12"@, "2026-09-30"@, "2026-10-23"@], seq!["2026-09-15"@, "2026-10-05"@, "2026-11-20"@], seq!["2026-04-30"@, "2026-06-15"@, "2026-07-20"@]]
}

/// The estimates, as binary64 bit patterns (24, 40, 32, 16, 20, 30, 48, 50,
/// 80 and 12 hours).
pub open spec fn demo_task_hours() -> Seq<Seq<u64>> {
    seq![seq![0x4038000000000000u64, 0x4044000000000000u64, 0x4040000000000000u64, 0x4030000000000000u64], seq![0x4034000000000000u64, 0x403e000000000000u64, 0x4048000000000000u64], seq![0x4049000000000000u64, 0x4054000000000000u64, 0x4028000000000000u64]]
}

pub open spec fn demo_task_tags() -> Seq<Seq<Seq<Seq<char>>>> {
    seq![seq![seq!["backend"@, "database"@], seq!["backend"@, "api"@], seq!["frontend"@, "ui"@], seq!["notifications"@]], seq![seq!["planning"@], seq!["design"@, "ux"@], seq!["payments"@, "integration"@]], seq![seq!["backend"@], seq!["mobile"@, "ui"@], seq!["release"@]]]
}

/// A text option by its view.
pub open spec fn text_option(o: Option<String>) -> Option<Seq<char>> {
    match o {
        Some(s) => Some(s@),
        None => None,
    }
}

/// Whether `t` is demo task `k` of project `i`, field by field.
pub open spec fn is_demo_task(t: Task, i: int, k: int) -> bool {
    &&& t.id@ == demo_task_ids()[i][k]
    &&& t.title@ == demo_task_titles()[i][k]
    &&& text_option(t.description) == Some(demo_task_descriptions()[i][k])
    &&& t.status == demo_task_states()[i][k]
    &&& text_option(t.assignee) == demo_task_assignees()[i][k]
    &&& t.priority == demo_task_priorities()[i][k]
    &&& text_option(t.start_date) == Some(demo_task_starts()[i][k])
    &&& text_option(t.end_date) == Some(demo_task_ends()[i][k])
    &&& t.estimated_hours == Some(demo_task_hours()[i][k])
    &&& crate::text::views_of(t.tags@) == demo_task_tags()[i][k]
}

/// The demonstration projects (ids `p1`..`p3`, tasks `t1`..`t10`), without
/// creation marks.
pub fn demo_projects() -> (r: Vec<Project>)
    ensures
        r@.len() == 3,
        r@[0].id@ == "p1"@,
        r@[0].name@ == "Sistema de Gestión de Inventarios"@,
        r@[0].business matches Some(b) && b@ == "AgileTeam Corp"@,
        r@[0].status == ProjectStatus::Active,
        r@[0].priority == Priority::High,
        r@[0].color@ == "#00A3F0"@,
        r@[0].created_at is None,
        r@[0].team@.len() == 2,
        r@[1].id@ == "p2"@,
        r@[1].name@ == "Portal de Ventas E-commerce"@,
        r@[1].business matches Some(b) && b@ == "NovaSoft"@,
        r@[1].status == ProjectStatus::Planning,
        r@[1].priority == Priority::Medium,
        r@[1].color@ == "#8b5cf6"@,
        r@[1].created_at is None,
        r@[1].team@.len() == 1,
        r@[2].id@ == "p3"@,
        r@[2].name@ == "App Móvil de Fidelización"@,
        r@[2].business matches Some(b) && b@ == "TechCorp"@,
        r@[2].status == ProjectStatus::Completed,
        r@[2].priority == Priority::Low,
        r@[2].color@ == "#10b981"@,
        r@[2].created_at is None,
        r@[2].team@.len() == 2,
        forall|i: int| 0 <= i < 3 ==> (#[trigger] r@[i]).tasks@.len() == demo_task_ids()[i].len(),
        forall|i: int, k: int|
            0 <= i < 3 && 0 <= k < demo_task_ids()[i].len() ==> is_demo_task(
                #[trigger] r@[i].tasks@[k],
                i,
                k,
            ),
        text_option(r@[0].description) == Some("Plataforma web para control de stock y reposiciones."@),
        text_option(r@[0].start_date) == Some("2026-08-03"@),
        text_option(r@[0].end_date) == Some("2026-10-30"@),
        crate::text::views_of(r@[0].team@) == seq!["Juan Pérez"@, "María García"@],
        text_option(r@[1].description) == Some("Catálogo, carrito y checkout para tienda online."@),
        text_option(r@[1].start_date) == Some("2026-09-01"@),
        text_option(r@[1].end_date) == Some("2026-12-15"@),
        crate::text::views_of(r@[1].team@) == seq!["Carlos López"@],
        text_option(r@[2].description) == Some("Programa de puntos y beneficios para clientes."@),
        text_option(r@[2].start_date) == Some("2026-03-10"@),
        text_option(r@[2].end_date) == Some("2026-07-20"@),
        crate::text::views_of(r@[2].team@) == seq!["Ana Ruiz"@, "Pedro Díaz"@],
{
    let mut tasks1: Vec<Task> = Vec::new();
    tasks1.push(demo_task("t1", "Modelo de datos de productos", "Entidades, relaciones y migraciones iniciales.", TaskStatus::Done, Some("María García"), Priority::High, "2026-08-03", "2026-08-14", 0x4038000000000000, &["backend", "database"]));
    tasks1.push(demo_task("t2", "API de movimientos de stock", "Alta, baja y ajuste de existencias.", TaskStatus::InProgress, Some("Juan Pérez"), Priority::High, "2026-08-15", "2026-09-12", 0x4044000000000000, &["backend", "api"]));
    tasks1.push(demo_task("t3", "Pantalla de inventario", "Tabla con filtros y exportación a CSV.", TaskStatus::InProgress, None, Priority::Medium, "2026-09-01", "2026-09-30", 0x4040000000000000, &["frontend", "ui"]));
    tasks1.push(demo_task("t4", "Alertas de reposición", "Notificaciones por email bajo umbral mínimo.", TaskStatus::Todo, Some("Juan Pérez"), Priority::Low, "2026-10-01", "2026-10-23", 0x4030000000000000, &["notifications"]));
    let p1 = Project {
        id: owned("p1"),
        name: owned("Sistema de Gestión de Inventarios"),
        description: Some(owned("Plataforma web para control de stock y reposiciones.")),
        business: Some(owned("AgileTeam Corp")),
        start_date: Some(owned("2026-08-03")),
        end_date: Some(owned("2026-10-30")),
        status: ProjectStatus::Active,
        priority: Priority::High,
        team: owned_list(&["Juan Pérez", "María García"]),
        color: owned("#00A3F0"),
        created_at: None,
        tasks: tasks1,
    };
    let mut tasks2: Vec<Task> = Vec::new();
    tasks2.push(demo_task("t5", "Definición de alcance", "Requerimientos y mapeo de flujos de compra.", TaskStatus::InProgress, Some("Carlos López"), Priority::High, "2026-09-01", "2026-09-15", 0x4034000000000000, &["planning"]));
    tasks2.push(demo_task("t6", "Diseño del catálogo", "Wireframes de listado y detalle de producto.", TaskStatus::Todo, None, Priority::Medium, "2026-09-16", "2026-10-05", 0x403e000000000000, &["design", "ux"]));
    tasks2.push(demo_task("t7", "Integración de pagos", "Evaluación de proveedores y sandbox.", TaskStatus::Todo, None, Priority::Medium, "2026-10-06", "2026-11-20", 0x4048000000000000, &["payments", "integration"]));
    let p2 = Project {
        id: owned("p2"),
        name: owned("Portal de Ventas E-commerce"),
        description: Some(owned("Catálogo, carrito y checkout para tienda online.")),
        business: Some(owned("NovaSoft")),
        start_date: Some(owned("2026-09-01")),
        end_date: Some(owned("2026-12-15")),
        status: ProjectStatus::Planning,
        priority: Priority::Medium,
        team: owned_list(&["Carlos López"]),
        color: owned("#8b5cf6"),
        created_at: None,
        tasks: tasks2,
    };
    let mut tasks3: Vec<Task> = Vec::new();
    tasks3.push(demo_task("t8", "Módulo de puntos", "Acumulación y canje de puntos por compras.", TaskStatus::Done, Some("Ana Ruiz"), Priority::High, "2026-03-10", "2026-04-30", 0x4049000000000000, &["backend"]));
    tasks3.push(demo_task("t9", "App nativa iOS/Android", "Cliente móvil con wallet de beneficios.", TaskStatus::Done, Some("Pedro Díaz"), Priority::Medium, "2026-04-01", "2026-06-15", 0x4054000000000000, &["mobile", "ui"]));
    tasks3.push(demo_task("t10", "Lanzamiento en tiendas", "Publicación y revisión de releases.", TaskStatus::Done, Some("Ana Ruiz"), Priority::Low, "2026-06-20", "2026-07-20", 0x4028000000000000, &["release"]));
    let p3 = Project {
        id: owned("p3"),
        name: owned("App Móvil de Fidelización"),
        description: Some(owned("Programa de puntos y beneficios para clientes.")),
        business: Some(owned("TechCorp")),
        start_date: Some(owned("2026-03-10")),
        end_date: Some(owned("2026-07-20")),
        status: ProjectStatus::Completed,
        priority: Priority::Low,
        team: owned_list(&["Ana Ruiz", "Pedro Díaz"]),
        color: owned("#10b981"),
        created_at: None,
        tasks: tasks3,
    };
    let mut r: Vec<Project> = Vec::new();
    r.push(p1);
    r.push(p2);
    r.push(p3);
    proof {
        assert(crate::text::views_of(r@[0].tasks@[0].tags@) =~= demo_task_tags()[0][0]);
        assert(is_demo_task(r@[0].tasks@[0], 0, 0));
        assert(crate::text::views_of(r@[0].tasks@[1].tags@) =~= demo_task_tags()[0][1]);
        assert(is_demo_task(r@[0].tasks@[1], 0, 1));
        assert(crate::text::views_of(r@[0].tasks@[2].tags@) =~= demo_task_tags()[0][2]);
        assert(is_demo_task(r@[0].tasks@[2], 0, 2));
        assert(crate::text::views_of(r@[0].tasks@[3].tags@) =~= demo_task_tags()[0][3]);
        assert(is_demo_task(r@[0].tasks@[3], 0, 3));
        assert(crate::text::views_of(r@[1].tasks@[0].tags@) =~= demo_task_tags()[1][0]);
        assert(is_demo_task(r@[1].tasks@[0], 1, 0));
        assert(crate::text::views_of(r@[1].tasks@[1].tags@) =~= demo_task_tags()[1][1]);
        assert(is_demo_task(r@[1].tasks@[1], 1, 1));
        assert(crate::text::views_of(r@[1].tasks@[2].tags@) =~= demo_task_tags()[1][2]);
        assert(is_demo_task(r@[1].tasks@[2], 1, 2));
        assert(crate::text::views_of(r@[2].tasks@[0].tags@) =~= demo_task_tags()[2][0]);
        assert(is_demo_task(r@[2].tasks@[0], 2, 0));
        assert(crate::text::views_of(r@[2].tasks@[1].tags@) =~= demo_task_tags()[2][1]);
        assert(is_demo_task(r@[2].tasks@[1], 2, 1));
        assert(crate::text::views_of(r@[2].tasks@[2].tags@) =~= demo_task_tags()[2][2]);
        assert(is_demo_task(r@[2].tasks@[2], 2, 2));
        assert forall|i: int, k: int|
            0 <= i < 3 && 0 <= k < demo_task_ids()[i].len() implies is_demo_task(
                #[trigger] r@[i].tasks@[k],
                i,
                k,
            ) by {
            if i == 0 {
                assert(k == 0 || k == 1 || k == 2 || k == 3);
            } else {
                assert(k == 0 || k == 1 || k == 2);
            }
        }
    }
    r
}

} // verus!
