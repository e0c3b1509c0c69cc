use darkicewolf50_cloud::listing::{
    experience_served, limit_projects, listing_page, projects_served, skills_served,
};
use darkicewolf50_cloud::model::{ExpDes, ProjectDes, TechDes, TypeExp};

fn project(name: &str) -> ProjectDes {
    ProjectDes {
        project_name: name.to_string(),
        website_link: None,
        github_link: Some(format!("https://example.org/{}", name)),
        forgejo_link: None,
        dockerhub_link: None,
        project_img: None,
        techs_used: vec!["Rust".to_string()],
        project_des: format!("about {}", name),
    }
}

fn names(v: &[ProjectDes]) -> Vec<String> {
    v.iter().map(|p| p.project_name.clone()).collect()
}

fn three() -> Vec<ProjectDes> {
    vec![project("a"), project("b"), project("c")]
}

#[test]
fn limit_projects_zero_is_all() {
    assert_eq!(names(&limit_projects(three(), 0)), vec!["a", "b", "c"]);
}

#[test]
fn limit_projects_takes_first() {
    assert_eq!(names(&limit_projects(three(), 2)), vec!["a", "b"]);
    assert_eq!(names(&limit_projects(three(), 1)), vec!["a"]);
}

#[test]
fn limit_projects_at_or_past_len_is_all() {
    assert_eq!(names(&limit_projects(three(), 3)), vec!["a", "b", "c"]);
    assert_eq!(names(&limit_projects(three(), 100)), vec!["a", "b", "c"]);
}

#[test]
fn projects_served_unparsed_is_empty() {
    assert!(projects_served(None, 2).is_empty());
    assert_eq!(names(&projects_served(Some(three()), 2)), vec!["a", "b"]);
}

#[test]
fn skills_served_keeps_or_empties() {
    let t = TechDes {
        tech_name: "Rust".to_string(),
        tech_logo: "rust.svg".to_string(),
        project_site: "https://rust-lang.org".to_string(),
        skill_level: 80,
        tech_cat: vec!["Backend".to_string()],
    };
    let served = skills_served(Some(vec![t]));
    assert_eq!(served.len(), 1);
    assert_eq!(served[0].tech_name, "Rust");
    assert_eq!(served[0].skill_level, 80);
    assert!(skills_served(None).is_empty());
}

#[test]
fn experience_served_keeps_or_empties() {
    let e = ExpDes {
        postition: "Dev".to_string(),
        company: "Co".to_string(),
        location: "Town".to_string(),
        start_month: "Jan 2020".to_string(),
        end_month: "Dec 2021".to_string(),
    };
    let served = experience_served(Some(TypeExp { experience_jobs: vec![e], experience_vol: vec![] }));
    assert_eq!(served.experience_jobs.len(), 1);
    assert_eq!(served.experience_jobs[0].company, "Co");
    assert!(served.experience_vol.is_empty());
    let empty = experience_served(None);
    assert!(empty.experience_jobs.is_empty() && empty.experience_vol.is_empty());
}

fn listing(n: usize) -> Vec<String> {
    (0..n).map(|i| format!("post{}.md", i)).collect()
}

#[test]
fn listing_page_first_pages() {
    assert_eq!(listing_page(listing(5), 2, 0), Some(vec!["post0.md".to_string(), "post1.md".to_string()]));
    assert_eq!(listing_page(listing(5), 2, 1), Some(vec!["post2.md".to_string(), "post3.md".to_string()]));
    assert_eq!(listing_page(listing(5), 2, 2), Some(vec!["post4.md".to_string()]));
}

#[test]
fn listing_page_past_end_is_none() {
    assert_eq!(listing_page(listing(5), 2, 3), None);
    assert_eq!(listing_page(listing(0), 2, 0), None);
    assert_eq!(listing_page(listing(4), 255, u32::MAX), None);
}

#[test]
fn listing_page_zero_limit() {
    assert_eq!(listing_page(listing(3), 0, 7), Some(vec![]));
    assert_eq!(listing_page(listing(0), 0, 0), None);
}

#[test]
fn law_item_on_its_page_example() {
    let items = listing(10);
    for i in 0..10usize {
        let page = listing_page(items.clone(), 3, (i / 3) as u32).unwrap();
        assert_eq!(page[i % 3], items[i]);
    }
}

#[test]
fn law_pages_are_consecutive_example() {
    let items = listing(7);
    let p0 = listing_page(items.clone(), 3, 0).unwrap();
    let p1 = listing_page(items.clone(), 3, 1).unwrap();
    assert_eq!(p0.len(), 3);
    let joined: Vec<String> = p0.into_iter().chain(p1.into_iter()).collect();
    assert_eq!(joined, items[0..6].to_vec());
}
