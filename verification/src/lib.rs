pub mod binary_node;
pub mod binary_search_algo;
pub mod bt_bfs;
pub mod bt_in_order;
pub mod bt_post_order;
pub mod bt_pre_order;
pub mod bubble_sort;
pub mod compare_binary_trees;
pub mod dfs_on_bst;
pub mod doubly_linked_list;
pub mod linear_search_list;
pub mod maze_solver;
pub mod queue;
pub mod quicksort;
pub mod sorting;
pub mod stack;
pub mod two_crystal_ball_problem;
