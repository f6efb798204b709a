use rustployd::maintenance::{cleanup_plan, name_of, CleanupSelection, PruneResource};

fn sel(all: bool) -> CleanupSelection {
    CleanupSelection {
        containers: all,
        images: true,
        images_all: false,
        volumes: all,
        volumes_all: true,
        networks: true,
        build_cache: all,
    }
}

#[test]
fn cleanup_prunes_containers_first_then_the_rest_in_order() {
    assert_eq!(
        cleanup_plan(sel(true)),
        vec![
            PruneResource::Containers,
            PruneResource::Images { all: false },
            PruneResource::Volumes { all: true },
            PruneResource::Networks,
            PruneResource::BuildCache,
        ]
    );
    assert_eq!(cleanup_plan(sel(false)), vec![PruneResource::Images { all: false }, PruneResource::Networks]);
    let names: Vec<&str> = cleanup_plan(sel(true)).into_iter().map(name_of).collect();
    assert_eq!(names, vec!["containers", "images", "volumes", "networks", "build_cache"]);
}
